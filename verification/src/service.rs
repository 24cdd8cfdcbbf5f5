//! The clipboard history: a table of rows, one per distinct content, with
//! upsert on repeated content, capacity eviction that never removes
//! favorites, retention, revision-guarded text edits and newest-first
//! queries.
use vstd::prelude::*;

use crate::clipboard::{
    content_kind_name, ClipboardContentKind, ClipboardWriteContent, JS_MAX_SAFE_INTEGER,
    MAX_SOURCE_APPLICATION_CHARS, MAX_SOURCE_PROCESS_CHARS, MAX_TEXT_BYTES,
};
use crate::dib::ClipboardImage;
use crate::hdrop::{
    le_bytes_of_units, valid_path_list, valid_path_units, MAX_CLIPBOARD_FILES,
    MAX_CLIPBOARD_FILE_PATHS_JSON_BYTES, MAX_CLIPBOARD_FILE_PATH_UNITS,
};
use crate::history::{
    item_from_row, json_path_lists, opt_text, path_lists_json, path_lists_to_json, unit_lists, ClipboardError,
    ClipboardHistoryItem, ImageError, ItemView, RawClipboardHistoryItem, RawRow,
};
use crate::settings::{
    MONITORING_ENABLED_KEY,
    default_model, load, regex_compiles, regex_finds, regex_is_match, save, settings_error,
    stored_settings, stores_preferences, ClipboardHistoryReuseStrategy, ClipboardSettings,
    SettingsModel,
};
use crate::settings_store::{SettingsStore, StorageError};
use crate::listener::{lemma_log_push, lemma_log_since_self, log_extends, log_since};
use crate::text::chars_of;
use crate::text_lists::{lower_ascii, lowercase_ascii, string_views, trim, trim_range};

verus! {

/// A stored history row: its columns and the hash of its content.
#[derive(Debug)]
pub struct HistoryRow {
    pub raw: RawClipboardHistoryItem,
    pub content_hash: Vec<u8>,
}

/// A stored history row as values.
pub struct StoredRow {
    pub row: RawRow,
    pub hash: Seq<u8>,
}

impl HistoryRow {
    /// The row as values.
    pub open spec fn stored(&self) -> StoredRow {
        StoredRow { row: self.raw.row(), hash: self.content_hash@ }
    }
}

/// The rows as values.
pub open spec fn stored_rows(rows: Seq<HistoryRow>) -> Seq<StoredRow> {
    Seq::new(rows.len(), |i: int| rows[i].stored())
}

/// Whether no two rows share an id, and no two rows share a kind and a
/// content hash.
pub open spec fn rows_unique(rows: Seq<StoredRow>) -> bool {
    &&& forall|i: int, j: int| 0 <= i < j < rows.len() ==> #[trigger] rows[i].row.id != #[trigger] rows[j].row.id
    &&& forall|i: int, j: int|
        0 <= i < j < rows.len() ==> !(#[trigger] rows[i].row.content_type == #[trigger] rows[j].row.content_type
            && rows[i].hash == rows[j].hash)
}

/// Whether `a` was captured before `b` (ties broken by the smaller id).
pub open spec fn older(a: RawRow, b: RawRow) -> bool {
    a.captured_at_ms < b.captured_at_ms || (a.captured_at_ms == b.captured_at_ms && a.id < b.id)
}

/// Whether capacity eviction may remove a row: it is not a favorite.
pub open spec fn evictable(row: RawRow) -> bool {
    row.is_favorite == 0
}

/// How many evictable rows of `rows` are older than `row`.
pub open spec fn older_evictable(rows: Seq<StoredRow>, row: RawRow) -> nat
    decreases rows.len(),
{
    if rows.len() == 0 {
        0
    } else {
        older_evictable(rows.drop_last(), row) + if evictable(rows.last().row) && older(rows.last().row, row) {
            1nat
        } else {
            0nat
        }
    }
}

/// Whether eviction of `excess` rows from `all` removes `row`: it is one
/// of the `excess` oldest evictable rows.
pub open spec fn is_victim(all: Seq<StoredRow>, row: RawRow, excess: int) -> bool {
    evictable(row) && older_evictable(all, row) < excess
}

/// The rows of `rows` that eviction of `excess` rows from `all` keeps.
pub open spec fn survivors(all: Seq<StoredRow>, rows: Seq<StoredRow>, excess: int) -> Seq<StoredRow>
    decreases rows.len(),
{
    if rows.len() == 0 {
        Seq::empty()
    } else {
        let kept = survivors(all, rows.drop_last(), excess);
        if is_victim(all, rows.last().row, excess) {
            kept
        } else {
            kept.push(rows.last())
        }
    }
}

/// The rows left after trimming the table to `capacity`: when it holds
/// more, the oldest non-favorites go, as many as the excess (fewer when
/// favorites fill the table).
pub open spec fn after_eviction(rows: Seq<StoredRow>, capacity: u32) -> Seq<StoredRow> {
    if rows.len() <= capacity {
        rows
    } else {
        survivors(rows, rows, rows.len() - capacity)
    }
}

/// The item stored under `id`: `Ok(None)` when no row has that id,
/// `CorruptRecord` when the row is corrupt.
pub open spec fn item_with_id(rows: Seq<StoredRow>, id: i64) -> Result<Option<ItemView>, ClipboardError> {
    if exists|i: int| 0 <= i < rows.len() && #[trigger] rows[i].row.id == id {
        let i = choose|i: int| 0 <= i < rows.len() && #[trigger] rows[i].row.id == id;
        match item_from_row(rows[i].row) {
            Some(item) => Ok(Some(item)),
            None => Err(ClipboardError::CorruptRecord),
        }
    } else {
        Ok(None)
    }
}

/// A copy of an optional text column.
pub fn copy_text(value: &Option<String>) -> (result: Option<String>)
    ensures
        opt_text(result) == opt_text(*value),
{
    match value {
        Some(text) => Some(text.clone()),
        None => None,
    }
}

/// A copy of a stored row.
pub fn copy_raw(raw: &RawClipboardHistoryItem) -> (result: RawClipboardHistoryItem)
    ensures
        result.row() == raw.row(),
{
    RawClipboardHistoryItem {
        id: raw.id,
        content_type: raw.content_type.clone(),
        text_content: copy_text(&raw.text_content),
        file_path: copy_text(&raw.file_path),
        source_application: copy_text(&raw.source_application),
        source_process: copy_text(&raw.source_process),
        captured_at_ms: raw.captured_at_ms,
        byte_size: raw.byte_size,
        is_favorite: raw.is_favorite,
        content_revision: raw.content_revision,
        source_icon_path: copy_text(&raw.source_icon_path),
        file_paths_json: copy_text(&raw.file_paths_json),
    }
}

/// Index of the row stored under `id`.
fn index_of_id(rows: &Vec<HistoryRow>, id: i64) -> (result: Option<usize>)
    ensures
        match result {
            Some(i) => i < rows@.len() && rows@[i as int].raw.id == id,
            None => forall|i: int| 0 <= i < rows@.len() ==> rows@[i].raw.id != id,
        },
{
    let mut i: usize = 0;
    while i < rows.len()
        invariant
            i <= rows@.len(),
            forall|j: int| 0 <= j < i ==> rows@[j].raw.id != id,
        decreases rows.len() - i,
    {
        if rows[i].raw.id == id {
            return Some(i);
        }
        i += 1;
    }
    None
}

/// The item stored under `id`.
pub fn item_by_id(rows: &Vec<HistoryRow>, id: i64) -> (result: Result<Option<ClipboardHistoryItem>, ClipboardError>)
    requires
        rows_unique(stored_rows(rows@)),
    ensures
        match item_with_id(stored_rows(rows@), id) {
            Ok(Some(item)) => result matches Ok(Some(found)) && found.view_item() == item,
            Ok(None) => result matches Ok(None),
            Err(error) => result == Err::<Option<ClipboardHistoryItem>, ClipboardError>(error),
        },
{
    let ghost model = stored_rows(rows@);
    match index_of_id(rows, id) {
        None => {
            assert forall|i: int| 0 <= i < model.len() implies #[trigger] model[i].row.id != id by {
                assert(model[i].row.id == rows@[i].raw.id);
            }
            Ok(None)
        },
        Some(i) => {
            proof {
                assert(model[i as int].row.id == id);
                let k = choose|k: int| 0 <= k < model.len() && #[trigger] model[k].row.id == id;
                if k != i as int {
                    if k < i {
                        assert(model[k].row.id != model[i as int].row.id);
                    } else {
                        assert(model[i as int].row.id != model[k].row.id);
                    }
                }
            }
            match ClipboardHistoryItem::try_from(copy_raw(&rows[i].raw)) {
                Ok(item) => Ok(Some(item)),
                Err(error) => Err(error),
            }
        },
    }
}

/// How many evictable rows are older than `row`.
fn count_older_evictable(rows: &Vec<HistoryRow>, row: &RawClipboardHistoryItem) -> (count: usize)
    ensures
        count == older_evictable(stored_rows(rows@), row.row()),
{
    let ghost model = stored_rows(rows@);
    let mut count: usize = 0;
    let mut i: usize = 0;
    while i < rows.len()
        invariant
            i <= rows@.len(),
            model == stored_rows(rows@),
            count == older_evictable(model.subrange(0, i as int), row.row()),
            count <= i,
        decreases rows.len() - i,
    {
        let other = &rows[i].raw;
        assert(model.subrange(0, i + 1).drop_last() =~= model.subrange(0, i as int));
        if other.is_favorite == 0 && (other.captured_at_ms < row.captured_at_ms || (other.captured_at_ms
            == row.captured_at_ms && other.id < row.id)) {
            count += 1;
        }
        i += 1;
    }
    assert(model.subrange(0, rows@.len() as int) =~= model);
    count
}

/// Trims `rows` to `capacity`: removes the oldest non-favorites, as many as
/// the rows beyond capacity, and returns the image references they held.
pub fn evict_excess(rows: &mut Vec<HistoryRow>, capacity: u32) -> (removed_images: Vec<String>)
    ensures
        stored_rows(final(rows)@) == after_eviction(stored_rows(old(rows)@), capacity),
{
    let ghost model = stored_rows(rows@);
    if rows.len() <= capacity as usize {
        return Vec::new();
    }
    let excess: usize = rows.len() - capacity as usize;
    let mut victims: Vec<bool> = Vec::new();
    let mut i: usize = 0;
    while i < rows.len()
        invariant
            i <= rows@.len(),
            model == stored_rows(rows@),
            excess == rows@.len() - capacity,
            victims@.len() == i,
            forall|j: int| 0 <= j < i ==> victims@[j] == is_victim(model, model[j].row, excess as int),
        decreases rows.len() - i,
    {
        let older_count = count_older_evictable(rows, &rows[i].raw);
        victims.push(rows[i].raw.is_favorite == 0 && older_count < excess);
        i += 1;
    }
    let mut remaining: Vec<HistoryRow> = Vec::new();
    std::mem::swap(&mut remaining, rows);
    let mut removed_images: Vec<String> = Vec::new();
    let total = remaining.len();
    let mut k: usize = 0;
    while k < total
        invariant
            k <= total,
            total == model.len(),
            victims@.len() == total,
            remaining@.len() == total - k,
            forall|j: int| 0 <= j < total ==> victims@[j] == is_victim(model, model[j].row, excess as int),
            forall|j: int| 0 <= j < remaining@.len() ==> #[trigger] remaining@[j].stored() == model[j + k],
            stored_rows(rows@) == survivors(model, model.subrange(0, k as int), excess as int),
        decreases total - k,
    {
        let row = remaining.remove(0);
        assert(row.stored() == model[k as int]);
        let ghost before = stored_rows(rows@);
        assert(model.subrange(0, k + 1).drop_last() =~= model.subrange(0, k as int));
        assert(model.subrange(0, k + 1).last() == model[k as int]);
        if victims[k] {
            if let Some(reference) = row.raw.file_path {
                removed_images.push(reference);
            }
        } else {
            rows.push(row);
            assert(stored_rows(rows@) =~= before.push(model[k as int]));
        }
        k += 1;
    }
    assert(model.subrange(0, total as int) =~= model);
    removed_images
}


// ---------------------------------------------------------------------------
// Content hashes.

/// The SHA-256 digest of `bytes`.
pub uninterp spec fn sha256(bytes: Seq<u8>) -> Seq<u8>;

/// `sha2::Sha256::digest(bytes)`, as a 32-byte vector.
#[verifier::external_body]
fn sha256_digest(bytes: &[u8]) -> (digest: Vec<u8>)
    ensures
        digest@ == sha256(bytes@),
        digest@.len() == 32,
{
    <sha2::Sha256 as sha2::Digest>::digest(bytes).to_vec()
}

/// The eight little-endian bytes of `n`.
pub open spec fn u64_le_bytes(n: u64) -> Seq<u8> {
    seq![
        (n % 0x100) as u8,
        ((n / 0x100) % 0x100) as u8,
        ((n / 0x1_0000) % 0x100) as u8,
        ((n / 0x100_0000) % 0x100) as u8,
        ((n / 0x1_0000_0000) % 0x100) as u8,
        ((n / 0x100_0000_0000) % 0x100) as u8,
        ((n / 0x1_0000_0000_0000) % 0x100) as u8,
        ((n / 0x100_0000_0000_0000) % 0x100) as u8,
    ]
}

/// The bytes a file list is hashed over: for each path, its length as a
/// little-endian `u64`, then its code units little-endian.
pub open spec fn path_hash_input(paths: Seq<Seq<u16>>) -> Seq<u8>
    decreases paths.len(),
{
    if paths.len() == 0 {
        Seq::empty()
    } else {
        path_hash_input(paths.drop_last()) + u64_le_bytes(paths.last().len() as u64) + le_bytes_of_units(
            paths.last(),
        )
    }
}

/// The eight little-endian bytes of a `u64` determine it.
proof fn lemma_u64_le_bytes_injective(a: u64, b: u64)
    requires
        u64_le_bytes(a) == u64_le_bytes(b),
    ensures
        a == b,
{
    assert(u64_le_bytes(a)[0] == u64_le_bytes(b)[0]);
    assert(u64_le_bytes(a)[1] == u64_le_bytes(b)[1]);
    assert(u64_le_bytes(a)[2] == u64_le_bytes(b)[2]);
    assert(u64_le_bytes(a)[3] == u64_le_bytes(b)[3]);
    assert(u64_le_bytes(a)[4] == u64_le_bytes(b)[4]);
    assert(u64_le_bytes(a)[5] == u64_le_bytes(b)[5]);
    assert(u64_le_bytes(a)[6] == u64_le_bytes(b)[6]);
    assert(u64_le_bytes(a)[7] == u64_le_bytes(b)[7]);
    assert(a % 0x100 == b % 0x100);
    assert((a / 0x100) % 0x100 == (b / 0x100) % 0x100);
    assert((a / 0x1_0000) % 0x100 == (b / 0x1_0000) % 0x100);
    assert((a / 0x100_0000) % 0x100 == (b / 0x100_0000) % 0x100);
    assert((a / 0x1_0000_0000) % 0x100 == (b / 0x1_0000_0000) % 0x100);
    assert((a / 0x100_0000_0000) % 0x100 == (b / 0x100_0000_0000) % 0x100);
    assert((a / 0x1_0000_0000_0000) % 0x100 == (b / 0x1_0000_0000_0000) % 0x100);
    assert((a / 0x100_0000_0000_0000) % 0x100 == (b / 0x100_0000_0000_0000) % 0x100);
    assert(a == b) by (bit_vector)
        requires
            a % 0x100 == b % 0x100,
            (a / 0x100) % 0x100 == (b / 0x100) % 0x100,
            (a / 0x1_0000) % 0x100 == (b / 0x1_0000) % 0x100,
            (a / 0x100_0000) % 0x100 == (b / 0x100_0000) % 0x100,
            (a / 0x1_0000_0000) % 0x100 == (b / 0x1_0000_0000) % 0x100,
            (a / 0x100_0000_0000) % 0x100 == (b / 0x100_0000_0000) % 0x100,
            (a / 0x1_0000_0000_0000) % 0x100 == (b / 0x1_0000_0000_0000) % 0x100,
            (a / 0x100_0000_0000_0000) % 0x100 == (b / 0x100_0000_0000_0000) % 0x100,
    ;
}

/// The little-endian bytes of code units determine the units.
proof fn lemma_le_bytes_of_units_injective(u: Seq<u16>, v: Seq<u16>)
    requires
        le_bytes_of_units(u) == le_bytes_of_units(v),
    ensures
        u == v,
{
    assert(le_bytes_of_units(u).len() == 2 * u.len());
    assert(le_bytes_of_units(v).len() == 2 * v.len());
    assert forall|i: int| 0 <= i < u.len() implies u[i] == v[i] by {
        let lo = 2 * i;
        let hi = 2 * i + 1;
        assert(lo / 2 == i && lo % 2 == 0 && hi / 2 == i && hi % 2 == 1);
        let a: int = u[i] as int;
        let b: int = v[i] as int;
        assert(le_bytes_of_units(u)[lo] == (u[i] % 256) as u8);
        assert(le_bytes_of_units(v)[lo] == (v[i] % 256) as u8);
        assert(le_bytes_of_units(u)[hi] == (u[i] / 256) as u8);
        assert(le_bytes_of_units(v)[hi] == (v[i] / 256) as u8);
        assert(((u[i] % 256) as u8) as int == a % 256);
        assert(((v[i] % 256) as u8) as int == b % 256);
        assert(((u[i] / 256) as u8) as int == a / 256);
        assert(((v[i] / 256) as u8) as int == b / 256);
        assert(a == 256 * (a / 256) + a % 256);
        assert(b == 256 * (b / 256) + b % 256);
    }
    assert(u =~= v);
}

/// A file list's hash input read from the front: the first path's length
/// and units, then the rest.
proof fn lemma_path_hash_input_front(paths: Seq<Seq<u16>>)
    requires
        paths.len() > 0,
    ensures
        path_hash_input(paths) == u64_le_bytes(paths[0].len() as u64) + le_bytes_of_units(paths[0])
            + path_hash_input(paths.drop_first()),
    decreases paths.len(),
{
    if paths.len() == 1 {
        assert(paths.drop_last() =~= Seq::<Seq<u16>>::empty());
        assert(paths.drop_first() =~= Seq::<Seq<u16>>::empty());
        assert(path_hash_input(paths) =~= u64_le_bytes(paths[0].len() as u64) + le_bytes_of_units(paths[0])
            + path_hash_input(paths.drop_first()));
    } else {
        let front = paths.drop_last();
        lemma_path_hash_input_front(front);
        assert(front[0] == paths[0]);
        assert(paths.drop_first().drop_last() =~= front.drop_first());
        assert(paths.drop_first().last() == paths.last());
        assert(path_hash_input(paths) =~= u64_le_bytes(paths[0].len() as u64) + le_bytes_of_units(paths[0])
            + path_hash_input(paths.drop_first()));
    }
}

/// Two equal concatenations whose first parts have the same length agree
/// part by part.
proof fn lemma_split_concat(x1: Seq<u8>, y1: Seq<u8>, x2: Seq<u8>, y2: Seq<u8>)
    requires
        x1 + y1 == x2 + y2,
        x1.len() == x2.len(),
    ensures
        x1 == x2,
        y1 == y2,
{
    assert(x1 =~= (x1 + y1).subrange(0, x1.len() as int));
    assert(x2 =~= (x2 + y2).subrange(0, x2.len() as int));
    assert(y1 =~= (x1 + y1).subrange(x1.len() as int, (x1 + y1).len() as int));
    assert(y2 =~= (x2 + y2).subrange(x2.len() as int, (x2 + y2).len() as int));
}

/// The first path of two lists with the same hash input is the same, and
/// so is the hash input of the rest.
proof fn lemma_path_hash_input_first(p: Seq<Seq<u16>>, q: Seq<Seq<u16>>)
    requires
        p.len() > 0,
        q.len() > 0,
        path_hash_input(p) == path_hash_input(q),
        p[0].len() <= u64::MAX,
        q[0].len() <= u64::MAX,
    ensures
        p[0] == q[0],
        path_hash_input(p.drop_first()) == path_hash_input(q.drop_first()),
{
    lemma_path_hash_input_front(p);
    lemma_path_hash_input_front(q);
    let lp = u64_le_bytes(p[0].len() as u64);
    let lq = u64_le_bytes(q[0].len() as u64);
    let up = le_bytes_of_units(p[0]);
    let uq = le_bytes_of_units(q[0]);
    let rp = path_hash_input(p.drop_first());
    let rq = path_hash_input(q.drop_first());
    assert(lp.len() == 8 && lq.len() == 8);
    assert(lp + up + rp =~= lp + (up + rp));
    assert(lq + uq + rq =~= lq + (uq + rq));
    lemma_split_concat(lp, up + rp, lq, uq + rq);
    lemma_u64_le_bytes_injective(p[0].len() as u64, q[0].len() as u64);
    assert(up.len() == 2 * p[0].len() && uq.len() == 2 * q[0].len());
    lemma_split_concat(up, rp, uq, rq);
    lemma_le_bytes_of_units_injective(p[0], q[0]);
}

/// The hash input of a file list determines the list: two lists of paths
/// (each shorter than 2^64 units) with the same hash input are the same
/// list, so recording a file list never refreshes a row that holds a
/// different list.
pub proof fn lemma_path_hash_input_injective(p: Seq<Seq<u16>>, q: Seq<Seq<u16>>)
    requires
        path_hash_input(p) == path_hash_input(q),
        forall|i: int| 0 <= i < p.len() ==> (#[trigger] p[i]).len() <= u64::MAX,
        forall|i: int| 0 <= i < q.len() ==> (#[trigger] q[i]).len() <= u64::MAX,
    ensures
        p == q,
    decreases p.len(),
{
    if p.len() > 0 {
        lemma_path_hash_input_front(p);
    }
    if q.len() > 0 {
        lemma_path_hash_input_front(q);
    }
    if p.len() > 0 && q.len() > 0 {
        assert(p[0].len() <= u64::MAX);
        assert(q[0].len() <= u64::MAX);
        lemma_path_hash_input_first(p, q);
        let pr = p.drop_first();
        let qr = q.drop_first();
        assert forall|i: int| 0 <= i < pr.len() implies (#[trigger] pr[i]).len() <= u64::MAX by {
            assert(pr[i] == p[i + 1]);
        }
        assert forall|i: int| 0 <= i < qr.len() implies (#[trigger] qr[i]).len() <= u64::MAX by {
            assert(qr[i] == q[i + 1]);
        }
        lemma_path_hash_input_injective(pr, qr);
        assert(p =~= seq![p[0]] + pr);
        assert(q =~= seq![q[0]] + qr);
    } else {
        if p.len() > 0 {
            assert(path_hash_input(p).len() >= 8);
        }
        if q.len() > 0 {
            assert(path_hash_input(q).len() >= 8);
        }
        assert(p.len() == 0 ==> path_hash_input(p).len() == 0);
        assert(q.len() == 0 ==> path_hash_input(q).len() == 0);
        assert(p =~= q);
    }
}

fn push_u64_le(out: &mut Vec<u8>, n: u64)
    ensures
        final(out)@ == old(out)@ + u64_le_bytes(n),
{
    out.push((n % 0x100) as u8);
    out.push(((n / 0x100) % 0x100) as u8);
    out.push(((n / 0x1_0000) % 0x100) as u8);
    out.push(((n / 0x100_0000) % 0x100) as u8);
    out.push(((n / 0x1_0000_0000) % 0x100) as u8);
    out.push(((n / 0x100_0000_0000) % 0x100) as u8);
    out.push(((n / 0x1_0000_0000_0000) % 0x100) as u8);
    out.push(((n / 0x100_0000_0000_0000) % 0x100) as u8);
    assert(final(out)@ =~= old(out)@ + u64_le_bytes(n));
}

/// The hash input of a file list.
fn path_hash_bytes(paths: &Vec<Vec<u16>>) -> (bytes: Vec<u8>)
    ensures
        bytes@ == path_hash_input(unit_lists(paths@)),
{
    let ghost lists = unit_lists(paths@);
    let mut bytes: Vec<u8> = Vec::new();
    let mut i: usize = 0;
    while i < paths.len()
        invariant
            i <= paths@.len(),
            lists == unit_lists(paths@),
            bytes@ == path_hash_input(lists.subrange(0, i as int)),
        decreases paths.len() - i,
    {
        let path = &paths[i];
        let ghost before = bytes@;
        push_u64_le(&mut bytes, path.len() as u64);
        let ghost middle = bytes@;
        let mut j: usize = 0;
        while j < path.len()
            invariant
                j <= path@.len(),
                bytes@ == middle + le_bytes_of_units(path@.subrange(0, j as int)),
            decreases path.len() - j,
        {
            let unit = path[j];
            bytes.push((unit % 256) as u8);
            bytes.push((unit / 256) as u8);
            assert(bytes@ =~= middle + le_bytes_of_units(path@.subrange(0, j + 1)));
            j += 1;
        }
        assert(path@.subrange(0, path@.len() as int) =~= path@);
        assert(lists.subrange(0, i + 1).drop_last() =~= lists.subrange(0, i as int));
        assert(lists[i as int] == path@);
        i += 1;
    }
    assert(lists.subrange(0, paths@.len() as int) =~= lists);
    bytes
}

// ---------------------------------------------------------------------------
// Capture metadata and policy.

/// Where and when a clipboard capture came from.
#[derive(Debug, Clone, PartialEq, Eq)]
pub struct ClipboardCaptureMetadata {
    pub captured_at_ms: u64,
    pub source_application: Option<String>,
    pub source_process: Option<String>,
}

/// What a capture did: whether the history kept it, and the item.
#[derive(Debug, Clone, PartialEq, Eq)]
pub struct ClipboardRecordResult {
    pub retained: bool,
    pub item: Option<ClipboardHistoryItem>,
}

/// The first limit capture metadata breaks, if any.
pub open spec fn metadata_error(metadata: ClipboardCaptureMetadata) -> Option<ClipboardError> {
    if opt_text(metadata.source_application) matches Some(app) && app.len() > MAX_SOURCE_APPLICATION_CHARS {
        Some(ClipboardError::SourceApplicationTooLong)
    } else if opt_text(metadata.source_process) matches Some(process) && process.len() > MAX_SOURCE_PROCESS_CHARS {
        Some(ClipboardError::SourceProcessTooLong)
    } else if metadata.captured_at_ms > JS_MAX_SAFE_INTEGER {
        Some(ClipboardError::NumericRange)
    } else {
        None
    }
}

/// A value that JavaScript numbers hold exactly: at most 2^53 - 1.
pub fn validate_safe_integer(value: u64) -> (result: Result<(), ClipboardError>)
    ensures
        result == if value <= JS_MAX_SAFE_INTEGER {
            Ok::<(), ClipboardError>(())
        } else {
            Err(ClipboardError::NumericRange)
        },
{
    if value <= JS_MAX_SAFE_INTEGER {
        Ok(())
    } else {
        Err(ClipboardError::NumericRange)
    }
}

/// An optional text of at most `maximum` characters; `error` otherwise.
pub fn validate_optional_chars(value: Option<&str>, maximum: usize, error: ClipboardError) -> (result: Result<
    (),
    ClipboardError,
>)
    ensures
        result == if value matches Some(text) && text@.len() > maximum {
            Err::<(), ClipboardError>(error)
        } else {
            Ok(())
        },
{
    match value {
        Some(text) => if chars_of(text).len() > maximum {
            Err(error)
        } else {
            Ok(())
        },
        None => Ok(()),
    }
}

/// Only positive ids name rows; any other is `NotFound`.
pub fn validate_id(id: i64) -> (result: Result<(), ClipboardError>)
    ensures
        result == if id > 0 {
            Ok::<(), ClipboardError>(())
        } else {
            Err(ClipboardError::NotFound)
        },
{
    if id > 0 {
        Ok(())
    } else {
        Err(ClipboardError::NotFound)
    }
}

/// Checks capture metadata against its limits.
pub fn validate_metadata(metadata: &ClipboardCaptureMetadata) -> (result: Result<(), ClipboardError>)
    ensures
        match metadata_error(*metadata) {
            Some(error) => result == Err::<(), ClipboardError>(error),
            None => result is Ok,
        },
{
    let application = match &metadata.source_application {
        Some(app) => Some(app.as_str()),
        None => None,
    };
    match validate_optional_chars(application, MAX_SOURCE_APPLICATION_CHARS, ClipboardError::SourceApplicationTooLong) {
        Ok(()) => {},
        Err(error) => {
            return Err(error);
        },
    }
    let process = match &metadata.source_process {
        Some(process) => Some(process.as_str()),
        None => None,
    };
    match validate_optional_chars(process, MAX_SOURCE_PROCESS_CHARS, ClipboardError::SourceProcessTooLong) {
        Ok(()) => {},
        Err(error) => {
            return Err(error);
        },
    }
    validate_safe_integer(metadata.captured_at_ms)
}

/// Whether the settings ignore the capture's source process: its trimmed,
/// ASCII-lowercased name is among the ignored applications.
pub open spec fn source_ignored(metadata: ClipboardCaptureMetadata, settings: SettingsModel) -> bool {
    opt_text(metadata.source_process) matches Some(process) && settings.ignored_apps.contains(
        lower_ascii(trim(process)),
    )
}

/// Whether one of the sensitive rules, compiled, matches `text`.
pub open spec fn text_is_sensitive(text: Seq<char>, settings: SettingsModel) -> bool {
    exists|i: int|
        0 <= i < settings.sensitive_rules.len() && regex_compiles(#[trigger] settings.sensitive_rules[i])
            && regex_finds(settings.sensitive_rules[i], text)
}

fn should_ignore_source(metadata: &ClipboardCaptureMetadata, settings: &ClipboardSettings) -> (ignored: bool)
    ensures
        ignored == source_ignored(*metadata, settings.model()),
{
    match &metadata.source_process {
        None => false,
        Some(process) => {
            let chars = chars_of(process.as_str());
            let mut normalized = trim_range(&chars, 0, chars.len());
            assert(chars@.subrange(0, chars@.len() as int) =~= chars@);
            lowercase_ascii(&mut normalized);
            let ghost apps = settings.model().ignored_apps;
            let mut i: usize = 0;
            while i < settings.ignored_apps.len()
                invariant
                    i <= settings.ignored_apps@.len(),
                    apps == string_views(settings.ignored_apps@),
                    normalized@ == lower_ascii(trim(process@)),
                    opt_text(metadata.source_process) == Some(process@),
                    apps == settings.model().ignored_apps,
                    forall|j: int| 0 <= j < i ==> apps[j] != normalized@,
                decreases settings.ignored_apps.len() - i,
            {
                let app = chars_of(settings.ignored_apps[i].as_str());
                if crate::text_lists::chars_equal(&app, &normalized) {
                    assert(apps[i as int] == normalized@);
                    assert(settings.model().ignored_apps.contains(lower_ascii(trim(process@))));
                    return true;
                }
                i += 1;
            }
            false
        },
    }
}

fn matches_sensitive_rule(text: &str, settings: &ClipboardSettings) -> (sensitive: bool)
    ensures
        sensitive == text_is_sensitive(text@, settings.model()),
{
    let ghost rules = settings.model().sensitive_rules;
    let mut i: usize = 0;
    while i < settings.sensitive_rules.len()
        invariant
            i <= settings.sensitive_rules@.len(),
            rules == string_views(settings.sensitive_rules@),
            forall|j: int| 0 <= j < i ==> !(regex_compiles(#[trigger] rules[j]) && regex_finds(rules[j], text@)),
        decreases settings.sensitive_rules.len() - i,
    {
        if regex_is_match(settings.sensitive_rules[i].as_str(), text) {
            assert(regex_compiles(settings.model().sensitive_rules[i as int]) && regex_finds(
                settings.model().sensitive_rules[i as int],
                text@,
            ));
            return true;
        }
        i += 1;
    }
    false
}


// ---------------------------------------------------------------------------
// Storing captures.

/// What a capture stores: its kind and content column, source and time, and
/// size in bytes.
pub struct Capture {
    pub kind: ClipboardContentKind,
    pub content: Seq<char>,
    pub source_application: Option<Seq<char>>,
    pub source_process: Option<Seq<char>>,
    pub captured_at_ms: i64,
    pub byte_size: i64,
}

/// Whether a row holds content of `kind` with hash `hash`.
pub open spec fn same_content(row: StoredRow, kind: ClipboardContentKind, hash: Seq<u8>) -> bool {
    row.row.content_type == content_kind_name(kind) && row.hash == hash
}

/// The row that already holds content of `kind` with hash `hash`, if any.
pub open spec fn content_index(rows: Seq<StoredRow>, kind: ClipboardContentKind, hash: Seq<u8>) -> Option<int> {
    if exists|i: int| 0 <= i < rows.len() && same_content(#[trigger] rows[i], kind, hash) {
        Some(choose|i: int| 0 <= i < rows.len() && same_content(#[trigger] rows[i], kind, hash))
    } else {
        None
    }
}

/// An existing row after a repeated capture: the content column of its
/// kind, the source, the time and the size are replaced, the icon is
/// dropped and the revision goes up by one; the id and favorite stay.
pub open spec fn refreshed(row: RawRow, capture: Capture) -> RawRow {
    RawRow {
        id: row.id,
        content_type: row.content_type,
        text_content: if capture.kind == ClipboardContentKind::Text { Some(capture.content) } else { row.text_content },
        file_path: if capture.kind == ClipboardContentKind::Image { Some(capture.content) } else { row.file_path },
        source_application: capture.source_application,
        source_process: capture.source_process,
        captured_at_ms: capture.captured_at_ms,
        byte_size: capture.byte_size,
        is_favorite: row.is_favorite,
        content_revision: (row.content_revision + 1) as i64,
        source_icon_path: None,
        file_paths_json: if capture.kind == ClipboardContentKind::Files {
            Some(capture.content)
        } else {
            row.file_paths_json
        },
    }
}

/// A new row for a first capture: not a favorite, revision 1, no icon.
pub open spec fn new_row(id: i64, capture: Capture) -> RawRow {
    RawRow {
        id,
        content_type: content_kind_name(capture.kind),
        text_content: if capture.kind == ClipboardContentKind::Text { Some(capture.content) } else { None },
        file_path: if capture.kind == ClipboardContentKind::Image { Some(capture.content) } else { None },
        source_application: capture.source_application,
        source_process: capture.source_process,
        captured_at_ms: capture.captured_at_ms,
        byte_size: capture.byte_size,
        is_favorite: 0,
        content_revision: 1,
        source_icon_path: None,
        file_paths_json: if capture.kind == ClipboardContentKind::Files { Some(capture.content) } else { None },
    }
}

/// Whether the file-store calls `calls` and `result` are what reading the
/// bytes of the image row `id` of `rows` made and gave: the managed image is
/// read by the row's reference and its answer passed on, a failure as an
/// image error; a missing, corrupt or non-image row makes no call.
pub open spec fn image_bytes_follow(
    rows: Seq<StoredRow>,
    id: i64,
    calls: Seq<FileCall>,
    result: Result<Vec<u8>, ClipboardError>,
) -> bool {
    if id <= 0 {
        calls.len() == 0 && result == Err::<Vec<u8>, ClipboardError>(ClipboardError::NotFound)
    } else {
        match item_with_id(rows, id) {
            Err(error) => calls.len() == 0 && result == Err::<Vec<u8>, ClipboardError>(error),
            Ok(None) => calls.len() == 0 && result == Err::<Vec<u8>, ClipboardError>(ClipboardError::NotFound),
            Ok(Some(item)) => if item.kind != ClipboardContentKind::Image {
                calls.len() == 0 && result == Err::<Vec<u8>, ClipboardError>(ClipboardError::NotFound)
            } else {
                match item.file_path {
                    None => calls.len() == 0 && result == Err::<Vec<u8>, ClipboardError>(
                        ClipboardError::CorruptRecord,
                    ),
                    Some(reference) => calls.len() == 1 && match calls[0] {
                        FileCall::ReadImage(asked, read) => asked == reference && result == match read {
                            Ok(bytes) => Ok::<Vec<u8>, ClipboardError>(bytes),
                            Err(error) => Err(ClipboardError::Image(error)),
                        },
                        _ => false,
                    },
                }
            },
        }
    }
}

/// Whether the file-store calls `calls` and `result` are what reading the
/// cached source icon of the row `id` of `rows` made and gave: the icon is
/// read by the row's icon reference and its bytes passed on, a missing
/// icon as `SourceIcon`; a missing or corrupt row, or one without an icon,
/// makes no call.
pub open spec fn source_icon_bytes_follow(
    rows: Seq<StoredRow>,
    id: i64,
    calls: Seq<FileCall>,
    result: Result<Vec<u8>, ClipboardError>,
) -> bool {
    if id <= 0 {
        calls.len() == 0 && result == Err::<Vec<u8>, ClipboardError>(ClipboardError::NotFound)
    } else {
        match item_with_id(rows, id) {
            Err(error) => calls.len() == 0 && result == Err::<Vec<u8>, ClipboardError>(error),
            Ok(None) => calls.len() == 0 && result == Err::<Vec<u8>, ClipboardError>(ClipboardError::NotFound),
            Ok(Some(item)) => match item.source_icon_path {
                None => calls.len() == 0 && result == Err::<Vec<u8>, ClipboardError>(ClipboardError::SourceIcon),
                Some(reference) => calls.len() == 1 && match calls[0] {
                    FileCall::ReadSourceIcon(asked, read) => asked == reference && result == match read {
                        Some(bytes) => Ok::<Vec<u8>, ClipboardError>(bytes),
                        None => Err(ClipboardError::SourceIcon),
                    },
                    _ => false,
                },
            },
        }
    }
}

/// Whether the row id `id` lies below the next free id `next_id`; once the
/// ids are used up (`next_id` at `i64::MAX`) every id is taken to lie below.
pub open spec fn below_next(id: i64, next_id: i64) -> bool {
    id < next_id || next_id == i64::MAX
}

/// The table after storing a capture with content hash `hash`, the next
/// free id, and the id of the capture's row: the row holding the same
/// content is refreshed, otherwise a row is added under the next id.
pub open spec fn upserted(rows: Seq<StoredRow>, next_id: i64, hash: Seq<u8>, capture: Capture) -> Result<
    (Seq<StoredRow>, i64, i64),
    ClipboardError,
> {
    match content_index(rows, capture.kind, hash) {
        Some(i) => if rows[i].row.content_revision == i64::MAX {
            Err(ClipboardError::Storage(StorageError::Unavailable))
        } else {
            Ok((rows.update(i, StoredRow { row: refreshed(rows[i].row, capture), hash }), next_id, rows[i].row.id))
        },
        None => if next_id == i64::MAX {
            Err(ClipboardError::Storage(StorageError::Unavailable))
        } else {
            Ok((rows.push(StoredRow { row: new_row(next_id, capture), hash }), (next_id + 1) as i64, next_id))
        },
    }
}

/// The table after storing a capture and trimming to `capacity`.
pub open spec fn stored_capture(
    rows: Seq<StoredRow>,
    next_id: i64,
    capacity: u32,
    hash: Seq<u8>,
    capture: Capture,
) -> Result<(Seq<StoredRow>, i64, i64), ClipboardError> {
    match upserted(rows, next_id, hash, capture) {
        Err(error) => Err(error),
        Ok((stored, next, id)) => Ok((after_eviction(stored, capacity), next, id)),
    }
}

/// Whether `result` reports the row `id` of `rows`: retained with its item
/// when it is there, not retained when eviction removed it.
pub open spec fn reports_row(
    result: Result<ClipboardRecordResult, ClipboardError>,
    rows: Seq<StoredRow>,
    id: i64,
) -> bool {
    match item_with_id(rows, id) {
        Ok(Some(item)) => result matches Ok(r) && r.retained && (r.item matches Some(found) && found.view_item() == item),
        Ok(None) => result matches Ok(r) && !r.retained && r.item is None,
        Err(error) => result == Err::<ClipboardRecordResult, ClipboardError>(error),
    }
}

/// Eviction keeps a subsequence: what it keeps was there, and distinct ids
/// and contents stay distinct.
proof fn lemma_survivors_unique(all: Seq<StoredRow>, rows: Seq<StoredRow>, excess: int)
    requires
        rows_unique(rows),
    ensures
        rows_unique(survivors(all, rows, excess)),
        forall|k: int|
            0 <= k < survivors(all, rows, excess).len() ==> rows.contains(#[trigger] survivors(all, rows, excess)[k]),
    decreases rows.len(),
{
    if rows.len() > 0 {
        let front = rows.drop_last();
        assert forall|i: int, j: int| 0 <= i < j < front.len() implies #[trigger] front[i].row.id != #[trigger] front[j].row.id by {
            assert(front[i] == rows[i] && front[j] == rows[j]);
        }
        assert forall|i: int, j: int|
            0 <= i < j < front.len() implies !(#[trigger] front[i].row.content_type == #[trigger] front[j].row.content_type
            && front[i].hash == front[j].hash) by {
            assert(front[i] == rows[i] && front[j] == rows[j]);
        }
        lemma_survivors_unique(all, front, excess);
        let kept = survivors(all, front, excess);
        let last = rows.last();
        assert forall|k: int| 0 <= k < kept.len() implies rows.contains(#[trigger] kept[k]) by {
            assert(front.contains(kept[k]));
            let i = choose|i: int| 0 <= i < front.len() && front[i] == kept[k];
            assert(rows[i] == kept[k]);
        }
        if !is_victim(all, last.row, excess) {
            let result = kept.push(last);
            assert forall|k: int| 0 <= k < kept.len() implies #[trigger] kept[k].row.id != last.row.id && !(
            kept[k].row.content_type == last.row.content_type && kept[k].hash == last.hash) by {
                assert(front.contains(kept[k]));
                let i = choose|i: int| 0 <= i < front.len() && front[i] == kept[k];
                assert(rows[i] == kept[k]);
                assert(rows[rows.len() - 1] == last);
            }
            assert forall|k: int| 0 <= k < result.len() implies rows.contains(#[trigger] result[k]) by {
                if k < kept.len() {
                    assert(result[k] == kept[k]);
                } else {
                    assert(rows[rows.len() - 1] == result[k]);
                }
            }
            lemma_push_unique(kept, last);
        }
    }
}

/// Adding a row whose id and content differ from every row keeps the rows
/// distinct.
proof fn lemma_push_unique(rows: Seq<StoredRow>, row: StoredRow)
    requires
        rows_unique(rows),
        forall|k: int| 0 <= k < rows.len() ==> #[trigger] rows[k].row.id != row.row.id && !(
            rows[k].row.content_type == row.row.content_type && rows[k].hash == row.hash),
    ensures
        rows_unique(rows.push(row)),
{
    let result = rows.push(row);
    assert forall|i: int, j: int| 0 <= i < j < result.len() implies #[trigger] result[i].row.id
        != #[trigger] result[j].row.id by {
        assert(result[i] == rows[i]);
        if j < rows.len() {
            assert(result[j] == rows[j]);
            assert(rows[i].row.id != rows[j].row.id);
        } else {
            assert(result[j] == row);
            assert(rows[i].row.id != row.row.id);
        }
    }
    assert forall|i: int, j: int|
        0 <= i < j < result.len() implies !(#[trigger] result[i].row.content_type
        == #[trigger] result[j].row.content_type && result[i].hash == result[j].hash) by {
        assert(result[i] == rows[i]);
        if j < rows.len() {
            assert(result[j] == rows[j]);
            assert(!(rows[i].row.content_type == rows[j].row.content_type && rows[i].hash == rows[j].hash));
        } else {
            assert(result[j] == row);
            assert(rows[i].row.id != row.row.id);
        }
    }
}

/// One call the history made to its file store, with its arguments and
/// answer.
pub enum FileCall {
    StoreRgba(u32, u32, Seq<u8>, Result<StoredImage, ImageError>),
    ReadImage(Seq<char>, Result<Vec<u8>, ImageError>),
    DecodeImage(Seq<char>, Result<ClipboardImage, ImageError>),
    RemoveImage(Seq<char>),
    ReadSourceIcon(Seq<char>, Option<Vec<u8>>),
    RegularFileSize(Seq<u16>, Option<u64>),
    CacheSourceIcon(Seq<char>, Option<String>),
    ReconcileImages(Seq<String>, Vec<String>),
    ReconcileSourceIcons(Seq<String>, Vec<String>),
    RemoveSourceIcons(Seq<String>),
}

/// The calls made to a file store so far, oldest first.
pub type FileCallLog = Seq<FileCall>;

/// The managed images, cached icons and file sizes the history needs.
/// `calls` names the calls made so far, oldest first, each with its answer.
pub trait ClipboardFiles {
    /// The calls made so far.
    spec fn calls(&self) -> FileCallLog;

    /// Stores RGBA pixels as a managed image.
    fn store_rgba(&mut self, width: u32, height: u32, rgba: &[u8]) -> (result: Result<StoredImage, ImageError>)
        ensures
            final(self).calls() == old(self).calls().push(FileCall::StoreRgba(width, height, rgba@, result)),
    ;

    /// The encoded bytes of a managed image.
    fn read_image(&mut self, reference: &str) -> (result: Result<Vec<u8>, ImageError>)
        ensures
            final(self).calls() == old(self).calls().push(FileCall::ReadImage(reference@, result)),
    ;

    /// The pixels of a managed image.
    fn decode_image(&mut self, reference: &str) -> (result: Result<ClipboardImage, ImageError>)
        ensures
            final(self).calls() == old(self).calls().push(FileCall::DecodeImage(reference@, result)),
    ;

    /// Removes a managed image that no row refers to any more.
    fn remove_image(&mut self, reference: &str)
        ensures
            final(self).calls() == old(self).calls().push(FileCall::RemoveImage(reference@)),
    ;

    /// The bytes of a cached source icon.
    fn read_source_icon(&mut self, reference: &str) -> (result: Option<Vec<u8>>)
        ensures
            final(self).calls() == old(self).calls().push(FileCall::ReadSourceIcon(reference@, result)),
    ;

    /// The size of the regular file at an absolute path, `None` when there is
    /// no such file.
    fn regular_file_size(&mut self, path: &[u16]) -> (result: Option<u64>)
        ensures
            final(self).calls() == old(self).calls().push(FileCall::RegularFileSize(path@, result)),
    ;

    /// Caches the icon of an executable and returns its reference.
    fn cache_source_icon(&mut self, executable: &str) -> (result: Option<String>)
        ensures
            final(self).calls() == old(self).calls().push(FileCall::CacheSourceIcon(executable@, result)),
    ;

    /// Removes managed images that none of `references` names and returns
    /// the references whose image is missing.
    fn reconcile_images(&mut self, references: &[String]) -> (result: Vec<String>)
        ensures
            final(self).calls() == old(self).calls().push(FileCall::ReconcileImages(references@, result)),
    ;

    /// Removes cached icons that none of `references` names and returns the
    /// references that are invalid or missing.
    fn reconcile_source_icons(&mut self, references: &[String]) -> (result: Vec<String>)
        ensures
            final(self).calls() == old(self).calls().push(FileCall::ReconcileSourceIcons(references@, result)),
    ;

    /// Removes the cached icons `references` name.
    fn remove_source_icons(&mut self, references: &[String])
        ensures
            final(self).calls() == old(self).calls().push(FileCall::RemoveSourceIcons(references@)),
    ;
}

/// A managed image after it was stored.
#[derive(Debug, Clone)]
pub struct StoredImage {
    pub reference: String,
    pub hash: Vec<u8>,
    pub byte_size: u64,
    pub newly_created: bool,
}

/// The clipboard history with its preferences.
pub struct ClipboardService<F: ClipboardFiles> {
    rows: Vec<HistoryRow>,
    next_id: i64,
    store: SettingsStore,
    settings: ClipboardSettings,
    corrupt_history_row_observations: u64,
    files: F,
}

/// Whether two byte vectors are equal.
fn bytes_equal(a: &Vec<u8>, b: &Vec<u8>) -> (equal: bool)
    ensures
        equal == (a@ == b@),
{
    if a.len() != b.len() {
        return false;
    }
    let mut i: usize = 0;
    while i < a.len()
        invariant
            i <= a@.len(),
            a@.len() == b@.len(),
            forall|j: int| 0 <= j < i ==> a@[j] == b@[j],
        decreases a.len() - i,
    {
        if a[i] != b[i] {
            return false;
        }
        i += 1;
    }
    assert(a@ =~= b@);
    true
}

/// A copy of the strings.
fn copy_strings(values: &Vec<String>) -> (result: Vec<String>)
    ensures
        string_views(result@) == string_views(values@),
{
    let mut result: Vec<String> = Vec::new();
    let mut i: usize = 0;
    while i < values.len()
        invariant
            i <= values@.len(),
            result@.len() == i,
            forall|j: int| 0 <= j < i ==> #[trigger] result@[j]@ == values@[j]@,
        decreases values.len() - i,
    {
        result.push(values[i].clone());
        i += 1;
    }
    assert(string_views(result@) =~= string_views(values@));
    result
}

/// A copy of the preferences.
pub fn copy_settings(settings: &ClipboardSettings) -> (result: ClipboardSettings)
    ensures
        result.model() == settings.model(),
{
    ClipboardSettings {
        retention_days: settings.retention_days,
        max_items: settings.max_items,
        ignored_apps: copy_strings(&settings.ignored_apps),
        history_reuse_strategy: settings.history_reuse_strategy,
        sensitive_rules: copy_strings(&settings.sensitive_rules),
    }
}

impl<F: ClipboardFiles> ClipboardService<F> {
    /// The history table.
    pub closed spec fn table(&self) -> Seq<StoredRow> {
        stored_rows(self.rows@)
    }

    /// The id the next new row gets.
    pub closed spec fn next_row_id(&self) -> i64 {
        self.next_id
    }

    /// The preferences in force.
    pub closed spec fn preferences(&self) -> SettingsModel {
        self.settings.model()
    }

    /// The settings table the preferences are saved in.
    pub closed spec fn settings_table(&self) -> SettingsStore {
        self.store
    }

    /// How many corrupt rows history queries have skipped so far.
    pub closed spec fn observations(&self) -> u64 {
        self.corrupt_history_row_observations
    }

    /// The service's invariant: ids and contents are distinct, and the next
    /// id is positive and above every id in the table.
    /// The calls made to the history's file store so far.
    pub closed spec fn file_calls(&self) -> Seq<FileCall> {
        self.files.calls()
    }

    pub closed spec fn wf(&self) -> bool {
        &&& rows_unique(self.table())
        &&& self.next_id > 0
        &&& forall|i: int| 0 <= i < self.rows@.len() ==> #[trigger] below_next(self.rows@[i].raw.id, self.next_id)
    }

    /// A well-formed history: no two rows share an id, or a kind and a
    /// content hash, and every id lies below the next free id (or the ids
    /// are used up).
    pub proof fn lemma_wf_unique(&self)
        requires
            self.wf(),
        ensures
            rows_unique(self.table()),
            self.next_row_id() > 0,
            forall|i: int| 0 <= i < self.table().len() ==> #[trigger] below_next(self.table()[i].row.id, self.next_row_id()),
    {
        assert forall|i: int| 0 <= i < self.table().len() implies #[trigger] below_next(self.table()[i].row.id, self.next_row_id()) by {
            assert(self.table()[i].row.id == self.rows@[i].raw.id);
        }
    }

    /// An empty history over `store`, with the preferences it holds (the
    /// defaults when they do not load).
    pub fn initialize(store: SettingsStore, files: F) -> (service: Self)
        ensures
            service.wf(),
            service.table() == Seq::<StoredRow>::empty(),
            service.observations() == 0,
            service.settings_table() == store,
            service.preferences() == match stored_settings(store) {
                Ok(model) => model,
                Err(_) => default_model(),
            },
    {
        let settings = match load(&store) {
            Ok(settings) => settings,
            Err(_) => ClipboardSettings::default(),
        };
        let service = ClipboardService {
            rows: Vec::new(),
            next_id: 1,
            store,
            settings,
            corrupt_history_row_observations: 0,
            files,
        };
        assert(service.table() =~= Seq::<StoredRow>::empty());
        service
    }

    /// A history holding `rows` read back from storage: `CorruptRecord` when
    /// two rows share an id or a content.
    pub fn try_initialize(store: SettingsStore, rows: Vec<HistoryRow>, files: F) -> (result: Result<Self, ClipboardError>)
        ensures
            match result {
                Ok(service) => {
                    &&& service.wf()
                    &&& service.table() == stored_rows(rows@)
                    &&& service.observations() == 0
                    &&& service.settings_table() == store
                    &&& service.preferences() == match stored_settings(store) {
                        Ok(model) => model,
                        Err(_) => default_model(),
                    }
                },
                Err(error) => error == ClipboardError::CorruptRecord && !rows_unique(stored_rows(rows@)),
            },
    {
        let ghost model = stored_rows(rows@);
        let mut next_id: i64 = 1;
        let mut i: usize = 0;
        while i < rows.len()
            invariant
                i <= rows@.len(),
                model == stored_rows(rows@),
                next_id > 0,
                forall|k: int| 0 <= k < i ==> #[trigger] below_next(rows@[k].raw.id, next_id),
                forall|a: int, b: int| 0 <= a < b < i ==> #[trigger] model[a].row.id != #[trigger] model[b].row.id,
                forall|a: int, b: int|
                    0 <= a < b < i ==> !(#[trigger] model[a].row.content_type == #[trigger] model[b].row.content_type
                        && model[a].hash == model[b].hash),
            decreases rows.len() - i,
        {
            let mut k: usize = 0;
            while k < i
                invariant
                    k <= i < rows@.len(),
                    model == stored_rows(rows@),
                    forall|a: int| 0 <= a < k ==> model[a].row.id != model[i as int].row.id,
                    forall|a: int|
                        0 <= a < k ==> !(model[a].row.content_type == model[i as int].row.content_type
                            && model[a].hash == model[i as int].hash),
                decreases i - k,
            {
                if rows[k].raw.id == rows[i].raw.id {
                    assert(model[k as int].row.id == model[i as int].row.id);
                    assert(!rows_unique(model));
                    return Err(ClipboardError::CorruptRecord);
                }
                if crate::text::str_equal(rows[k].raw.content_type.as_str(), rows[i].raw.content_type.as_str())
                    && bytes_equal(&rows[k].content_hash, &rows[i].content_hash) {
                    assert(model[k as int].row.content_type == model[i as int].row.content_type);
                    assert(model[k as int].hash == model[i as int].hash);
                    assert(!rows_unique(model));
                    return Err(ClipboardError::CorruptRecord);
                }
                k += 1;
            }
            let id = rows[i].raw.id;
            let ghost old_next = next_id;
            if id >= next_id {
                next_id = if id == i64::MAX {
                    i64::MAX
                } else {
                    id + 1
                };
            }
            assert forall|k: int| 0 <= k < i + 1 implies #[trigger] below_next(rows@[k].raw.id, next_id) by {
                if k < i {
                    assert(below_next(rows@[k].raw.id, old_next));
                }
            }
            i += 1;
        }
        let settings = match load(&store) {
            Ok(settings) => settings,
            Err(_) => ClipboardSettings::default(),
        };
        Ok(ClipboardService { rows, next_id, store, settings, corrupt_history_row_observations: 0, files })
    }

    /// The preferences in force.
    pub fn settings(&self) -> (result: Result<ClipboardSettings, ClipboardError>)
        ensures
            result matches Ok(settings) && settings.model() == self.preferences(),
    {
        Ok(copy_settings(&self.settings))
    }

    /// The settings table, for saving it.
    pub fn settings_store(&self) -> (store: &SettingsStore)
        ensures
            *store == self.settings_table(),
    {
        &self.store
    }

    /// Whether clipboard monitoring is on: stored `true`, or on by default.
    pub fn monitoring_enabled(&self) -> (result: Result<bool, StorageError>)
        ensures
            result == Ok::<bool, StorageError>(
                match self.settings_table().value(MONITORING_ENABLED_KEY@) {
                    Some(value) => value == "true"@,
                    None => true,
                },
            ),
    {
        crate::settings::monitoring_enabled(&self.store)
    }

    /// Stores whether clipboard monitoring is on; nothing else changes.
    pub fn set_monitoring_enabled(&mut self, enabled: bool) -> (result: Result<(), StorageError>)
        requires
            old(self).wf(),
        ensures
            final(self).wf(),
            result is Ok,
            final(self).settings_table().value(MONITORING_ENABLED_KEY@) == Some(
                if enabled { "true"@ } else { "false"@ },
            ),
            forall|key: Seq<char>|
                key != MONITORING_ENABLED_KEY@ ==> #[trigger] final(self).settings_table().value(key) == old(
                    self,
                ).settings_table().value(key),
            final(self).table() == old(self).table(),
            final(self).next_row_id() == old(self).next_row_id(),
            final(self).preferences() == old(self).preferences(),
            final(self).observations() == old(self).observations(),
    {
        crate::settings::set_monitoring_enabled(&mut self.store, enabled)
    }

    /// The history table's rows, for saving them.
    pub fn rows(&self) -> (rows: &Vec<HistoryRow>)
        ensures
            stored_rows(rows@) == self.table(),
    {
        &self.rows
    }

    /// How many corrupt rows history queries have skipped so far.
    pub fn corrupt_history_row_observations(&self) -> (count: u64)
        ensures
            count == self.observations(),
    {
        self.corrupt_history_row_observations
    }

    /// Index of the row holding content of `kind` with hash `hash`.
    fn find_content(&self, kind: ClipboardContentKind, hash: &Vec<u8>) -> (result: Option<usize>)
        requires
            self.wf(),
        ensures
            match content_index(self.table(), kind, hash@) {
                Some(i) => result == Some(i as usize),
                None => result is None,
            },
            result matches Some(i) ==> i < self.rows@.len() && same_content(self.table()[i as int], kind, hash@),
    {
        let ghost model = self.table();
        let name = kind.as_str();
        let mut i: usize = 0;
        while i < self.rows.len()
            invariant
                i <= self.rows@.len(),
                model == stored_rows(self.rows@),
                name@ == content_kind_name(kind),
                rows_unique(model),
                forall|j: int| 0 <= j < i ==> !same_content(#[trigger] model[j], kind, hash@),
            decreases self.rows.len() - i,
        {
            if crate::text::str_equal(self.rows[i].raw.content_type.as_str(), name) && bytes_equal(
                &self.rows[i].content_hash,
                hash,
            ) {
                proof {
                    assert(same_content(model[i as int], kind, hash@));
                    let k = choose|k: int| 0 <= k < model.len() && same_content(#[trigger] model[k], kind, hash@);
                    if k != i as int {
                        if k < i {
                            assert(!same_content(model[k], kind, hash@));
                        } else {
                            assert(!(model[i as int].row.content_type == model[k].row.content_type
                                && model[i as int].hash == model[k].hash));
                        }
                    }
                }
                return Some(i);
            }
            i += 1;
        }
        None
    }

    /// Stores a capture: refreshes the row with the same content, or adds a
    /// row under the next id; returns the row's id.
    #[verifier::spinoff_prover]
    fn upsert(
        &mut self,
        kind: ClipboardContentKind,
        hash: Vec<u8>,
        content: String,
        source_application: Option<String>,
        source_process: Option<String>,
        captured_at_ms: i64,
        byte_size: i64,
    ) -> (result: Result<i64, ClipboardError>)
        requires
            old(self).wf(),
        ensures
            final(self).wf(),
            final(self).preferences() == old(self).preferences(),
            final(self).settings_table() == old(self).settings_table(),
            final(self).observations() == old(self).observations(),
            match upserted(
                old(self).table(),
                old(self).next_row_id(),
                hash@,
                Capture {
                    kind,
                    content: content@,
                    source_application: opt_text(source_application),
                    source_process: opt_text(source_process),
                    captured_at_ms,
                    byte_size,
                },
            ) {
                Err(error) => result == Err::<i64, ClipboardError>(error) && final(self).table() == old(self).table() && final(self).next_row_id() == old(self).next_row_id(),
                Ok((rows, next, id)) => result == Ok::<i64, ClipboardError>(id) && final(self).table() == rows
                    && final(self).next_row_id() == next,
            },
    {
        let ghost capture = Capture {
            kind,
            content: content@,
            source_application: opt_text(source_application),
            source_process: opt_text(source_process),
            captured_at_ms,
            byte_size,
        };
        let ghost before = self.table();
        match self.find_content(kind, &hash) {
            Some(i) => {
                if self.rows[i].raw.content_revision == i64::MAX {
                    return Err(ClipboardError::Storage(StorageError::Unavailable));
                }
                let mut row = self.rows.remove(i);
                match kind {
                    ClipboardContentKind::Text => {
                        row.raw.text_content = Some(content);
                    },
                    ClipboardContentKind::Image => {
                        row.raw.file_path = Some(content);
                    },
                    ClipboardContentKind::Files => {
                        row.raw.file_paths_json = Some(content);
                    },
                }
                row.raw.source_application = source_application;
                row.raw.source_process = source_process;
                row.raw.captured_at_ms = captured_at_ms;
                row.raw.byte_size = byte_size;
                row.raw.source_icon_path = None;
                row.raw.content_revision = row.raw.content_revision + 1;
                let id = row.raw.id;
                assert(row.content_hash@ == hash@);
                self.rows.insert(i, row);
                proof {
                    let after = self.table();
                    let expected = before.update(i as int, StoredRow { row: refreshed(before[i as int].row, capture), hash: hash@ });
                    assert(after =~= expected);
                    assert forall|a: int, b: int| 0 <= a < b < after.len() implies #[trigger] after[a].row.id
                        != #[trigger] after[b].row.id by {
                        assert(before[a].row.id != before[b].row.id);
                    }
                    assert forall|a: int, b: int|
                        0 <= a < b < after.len() implies !(#[trigger] after[a].row.content_type
                        == #[trigger] after[b].row.content_type && after[a].hash == after[b].hash) by {
                        assert(!(before[a].row.content_type == before[b].row.content_type && before[a].hash == before[b].hash));
                    }
                    assert forall|k: int| 0 <= k < self.rows@.len() implies #[trigger] below_next(self.rows@[k].raw.id, self.next_id) by {
                        assert(after[k].row.id == before[k].row.id);
                        assert(before[k].row.id == old(self).rows@[k].raw.id);
                    }
                }
                Ok(id)
            },
            None => {
                if self.next_id == i64::MAX {
                    return Err(ClipboardError::Storage(StorageError::Unavailable));
                }
                let id = self.next_id;
                let row = HistoryRow {
                    raw: RawClipboardHistoryItem {
                        id,
                        content_type: kind.as_str().to_owned(),
                        text_content: None,
                        file_path: None,
                        source_application,
                        source_process,
                        captured_at_ms,
                        byte_size,
                        is_favorite: 0,
                        content_revision: 1,
                        source_icon_path: None,
                        file_paths_json: None,
                    },
                    content_hash: hash,
                };
                let mut row = row;
                match kind {
                    ClipboardContentKind::Text => {
                        row.raw.text_content = Some(content);
                    },
                    ClipboardContentKind::Image => {
                        row.raw.file_path = Some(content);
                    },
                    ClipboardContentKind::Files => {
                        row.raw.file_paths_json = Some(content);
                    },
                }
                self.rows.push(row);
                self.next_id = id + 1;
                proof {
                    let after = self.table();
                    assert(after =~= before.push(StoredRow { row: new_row(id, capture), hash: hash@ }));
                    assert forall|a: int, b: int| 0 <= a < b < after.len() implies #[trigger] after[a].row.id
                        != #[trigger] after[b].row.id by {
                        if b == before.len() {
                            assert(below_next(old(self).rows@[a].raw.id, old(self).next_id));
                            assert(old(self).rows@[a].raw.id < id);
                            assert(before[a].row.id == old(self).rows@[a].raw.id);
                        } else {
                            assert(before[a].row.id != before[b].row.id);
                        }
                    }
                    assert forall|a: int, b: int|
                        0 <= a < b < after.len() implies !(#[trigger] after[a].row.content_type
                        == #[trigger] after[b].row.content_type && after[a].hash == after[b].hash) by {
                        if b == before.len() {
                            assert(!same_content(before[a], kind, hash@));
                        } else {
                            assert(!(before[a].row.content_type == before[b].row.content_type && before[a].hash == before[b].hash));
                        }
                    }
                    assert forall|k: int| 0 <= k < self.rows@.len() implies #[trigger] below_next(self.rows@[k].raw.id, self.next_id) by {
                        if k < before.len() {
                            assert(self.rows@[k] == old(self).rows@[k]);
                            assert(below_next(old(self).rows@[k].raw.id, old(self).next_id));
                        } else {
                            assert(self.rows@[k].raw.id == id);
                        }
                    }
                }
                Ok(id)
            },
        }
    }
}


/// Whether the table moved from `before` to `after` by storing `capture`
/// with hash `hash` and trimming to `capacity`, and `result` reports the
/// capture's row; on failure nothing changed.
pub open spec fn records(
    before: Seq<StoredRow>,
    before_next: i64,
    after: Seq<StoredRow>,
    after_next: i64,
    result: Result<ClipboardRecordResult, ClipboardError>,
    capacity: u32,
    hash: Seq<u8>,
    capture: Capture,
) -> bool {
    match stored_capture(before, before_next, capacity, hash, capture) {
        Err(error) => result == Err::<ClipboardRecordResult, ClipboardError>(error) && after == before && after_next
            == before_next,
        Ok((rows, next, id)) => after == rows && after_next == next && reports_row(result, rows, id),
    }
}

/// Whether `result` says the capture was dropped without being stored.
pub open spec fn not_retained(result: Result<ClipboardRecordResult, ClipboardError>) -> bool {
    result matches Ok(r) && !r.retained && r.item is None
}

/// The error for a rejected file list: `FilesUnavailable` when writing back
/// a stored list, `InvalidFiles` when capturing one.
pub open spec fn file_list_error(unavailable: bool) -> ClipboardError {
    if unavailable {
        ClipboardError::FilesUnavailable
    } else {
        ClipboardError::InvalidFiles
    }
}

/// The size a file-size call answered, nothing for any other call.
pub open spec fn file_size_answer(call: FileCall) -> Option<u64> {
    match call {
        FileCall::RegularFileSize(_, answer) => answer,
        _ => None,
    }
}

/// The sum of the sizes that the calls `calls` answered.
pub open spec fn sizes_total(calls: Seq<FileCall>) -> int
    decreases calls.len(),
{
    if calls.len() == 0 {
        0
    } else {
        sizes_total(calls.drop_last()) + match file_size_answer(calls.last()) {
            Some(size) => size as int,
            None => 0,
        }
    }
}

/// Whether the file-store calls `calls` and `result` are what checking the
/// file list `paths` made and gave: a list with no path or too many fails
/// at once; otherwise, path by path, a malformed path fails, then its size
/// is asked, and a missing file or a running total beyond 2^53-1 fails;
/// the total size when every path passes. A failure is
/// `file_list_error(unavailable)`.
pub open spec fn file_check_follows(
    paths: Seq<Seq<u16>>,
    unavailable: bool,
    calls: Seq<FileCall>,
    result: Result<u64, ClipboardError>,
) -> bool {
    let n = calls.len() as int;
    &&& result matches Err(error) ==> error == file_list_error(unavailable)
    &&& if paths.len() == 0 || paths.len() > MAX_CLIPBOARD_FILES {
        n == 0 && result is Err
    } else {
        &&& n <= paths.len()
        &&& forall|k: int|
            0 <= k < n ==> valid_path_units(paths[k]) && (#[trigger] calls[k]) == FileCall::RegularFileSize(
                paths[k],
                file_size_answer(calls[k]),
            )
        &&& forall|k: int| 0 <= k < n - 1 ==> file_size_answer(#[trigger] calls[k]) is Some
        &&& n > 0 ==> sizes_total(calls.drop_last()) <= JS_MAX_SAFE_INTEGER
        &&& match result {
            Ok(total) => {
                &&& n == paths.len()
                &&& file_size_answer(calls.last()) is Some
                &&& total == sizes_total(calls)
                &&& total <= JS_MAX_SAFE_INTEGER
            },
            Err(_) => {
                ||| n > 0 && (file_size_answer(calls.last()) is None || sizes_total(calls) > JS_MAX_SAFE_INTEGER)
                ||| n < paths.len() && !valid_path_units(paths[n]) && (n > 0 ==> file_size_answer(calls.last())
                    is Some && sizes_total(calls) <= JS_MAX_SAFE_INTEGER)
            },
        }
    }
}

fn not_retained_result() -> (result: Result<ClipboardRecordResult, ClipboardError>)
    ensures
        not_retained(result),
{
    Ok(ClipboardRecordResult { retained: false, item: None })
}

impl<F: ClipboardFiles> ClipboardService<F> {
    /// Trims the table to the preferred capacity.
    #[verifier::spinoff_prover]
    fn evict(&mut self) -> (removed_images: Vec<String>)
        requires
            old(self).wf(),
        ensures
            final(self).wf(),
            final(self).table() == after_eviction(old(self).table(), old(self).preferences().max_items),
            final(self).file_calls() == old(self).file_calls(),
            final(self).next_row_id() == old(self).next_row_id(),
            final(self).preferences() == old(self).preferences(),
            final(self).settings_table() == old(self).settings_table(),
            final(self).observations() == old(self).observations(),
    {
        let ghost before = self.table();
        let removed = evict_excess(&mut self.rows, self.settings.max_items);
        proof {
            let after = self.table();
            if before.len() > self.settings.max_items {
                lemma_survivors_unique(before, before, before.len() - self.settings.max_items);
            }
            assert forall|k: int| 0 <= k < self.rows@.len() implies #[trigger] below_next(self.rows@[k].raw.id, self.next_id) by {
                assert(after[k].row.id == self.rows@[k].raw.id);
                assert(before.contains(after[k]));
                let i = choose|i: int| 0 <= i < before.len() && before[i] == after[k];
                assert(before[i].row.id == old(self).rows@[i].raw.id);
            }
        }
        removed
    }

    /// Removes the managed image `reference` when no row refers to it.
    fn cleanup_if_unreferenced(&mut self, reference: &str)
        ensures
            final(self).table() == old(self).table(),
            final(self).next_row_id() == old(self).next_row_id(),
            final(self).wf() == old(self).wf(),
            final(self).preferences() == old(self).preferences(),
            final(self).settings_table() == old(self).settings_table(),
            final(self).observations() == old(self).observations(),
            log_extends(old(self).file_calls(), final(self).file_calls()),
            log_since(old(self).file_calls(), final(self).file_calls()) == if unreferenced(
                old(self).table(),
                reference@,
            ) {
                seq![FileCall::RemoveImage(reference@)]
            } else {
                Seq::<FileCall>::empty()
            },
    {
        let ghost start = self.file_calls();
        proof {
            lemma_log_since_self(start);
        }
        let mut i: usize = 0;
        while i < self.rows.len()
            invariant
                i <= self.rows@.len(),
                forall|j: int| 0 <= j < i ==> (#[trigger] self.table()[j]).row.file_path != Some(reference@),
                start == old(self).file_calls(),
                log_extends(start, self.file_calls()),
                log_since(start, self.file_calls()) == Seq::<FileCall>::empty(),
            decreases self.rows.len() - i,
        {
            assert(self.table()[i as int].row.file_path == match self.rows@[i as int].raw.file_path {
                Some(path) => Some(path@),
                None => None::<Seq<char>>,
            });
            if let Some(path) = &self.rows[i].raw.file_path {
                if crate::text::str_equal(path.as_str(), reference) {
                    return;
                }
            }
            i += 1;
        }
        self.files.remove_image(reference);
        proof {
            lemma_log_push(start, FileCall::RemoveImage(reference@));
        }
    }

    /// Removes the managed images that no row refers to any more.
    fn remove_image_references(&mut self, references: Vec<String>)
        ensures
            final(self).table() == old(self).table(),
            final(self).next_row_id() == old(self).next_row_id(),
            final(self).wf() == old(self).wf(),
            final(self).preferences() == old(self).preferences(),
            final(self).settings_table() == old(self).settings_table(),
            final(self).observations() == old(self).observations(),
            log_extends(old(self).file_calls(), final(self).file_calls()),
            log_since(old(self).file_calls(), final(self).file_calls()) == image_removals(
                old(self).table(),
                string_views(references@),
            ),
    {
        let ghost start = self.file_calls();
        proof {
            lemma_log_since_self(start);
        }
        let mut i: usize = 0;
        while i < references.len()
            invariant
                i <= references@.len(),
                self.table() == old(self).table(),
                self.next_row_id() == old(self).next_row_id(),
                self.wf() == old(self).wf(),
                self.preferences() == old(self).preferences(),
                self.settings_table() == old(self).settings_table(),
                self.observations() == old(self).observations(),
                start == old(self).file_calls(),
                log_extends(start, self.file_calls()),
                log_since(start, self.file_calls()) == image_removals(
                    old(self).table(),
                    string_views(references@).subrange(0, i as int),
                ),
            decreases references.len() - i,
        {
            let ghost before = self.file_calls();
            self.cleanup_if_unreferenced(references[i].as_str());
            proof {
                crate::listener::lemma_log_since_split(start, before, self.file_calls());
                let views = string_views(references@);
                assert(views.subrange(0, i + 1).drop_last() =~= views.subrange(0, i as int));
                assert(views.subrange(0, i + 1).last() == references@[i as int]@);
                if unreferenced(old(self).table(), references@[i as int]@) {
                    assert(log_since(start, self.file_calls()) =~= image_removals(old(self).table(), views.subrange(0, i as int)).push(FileCall::RemoveImage(references@[i as int]@)));
                } else {
                    assert(log_since(start, self.file_calls()) =~= image_removals(old(self).table(), views.subrange(0, i as int)));
                }
            }
            i += 1;
        }
        proof {
            assert(string_views(references@).subrange(0, references@.len() as int) =~= string_views(references@));
        }
    }

    /// What storing the capture under `id` gave.
    fn record_result(&self, id: i64) -> (result: Result<ClipboardRecordResult, ClipboardError>)
        requires
            self.wf(),
        ensures
            reports_row(result, self.table(), id),
    {
        match item_by_id(&self.rows, id) {
            Ok(Some(item)) => Ok(ClipboardRecordResult { retained: true, item: Some(item) }),
            Ok(None) => Ok(ClipboardRecordResult { retained: false, item: None }),
            Err(error) => Err(error),
        }
    }

    /// Records copied text. Text from an ignored application, or matching a
    /// sensitive rule, is dropped; empty or oversized text, and metadata
    /// beyond its limits, are rejected; otherwise the text is stored (the row
    /// holding the same text is refreshed) and the history trimmed.
    pub fn record_text(&mut self, text: String, metadata: ClipboardCaptureMetadata) -> (result: Result<
        ClipboardRecordResult,
        ClipboardError,
    >)
        requires
            old(self).wf(),
        ensures
            final(self).wf(),
            final(self).preferences() == old(self).preferences(),
            final(self).settings_table() == old(self).settings_table(),
            final(self).observations() == old(self).observations(),
            if source_ignored(metadata, old(self).preferences()) || text_is_sensitive(text@, old(self).preferences()) {
                not_retained(result) && final(self).table() == old(self).table() && final(self).next_row_id()
                    == old(self).next_row_id()
            } else if text@.len() == 0 || vstd::utf8::encode_utf8(text@).len() > MAX_TEXT_BYTES || metadata_error(
                metadata,
            ) is Some {
                result == Err::<ClipboardRecordResult, ClipboardError>(
                    if text@.len() == 0 {
                        ClipboardError::EmptyText
                    } else if vstd::utf8::encode_utf8(text@).len() > MAX_TEXT_BYTES {
                        ClipboardError::TextTooLarge
                    } else {
                        metadata_error(metadata)->0
                    },
                ) && final(self).table() == old(self).table() && final(self).next_row_id() == old(self).next_row_id()
            } else {
                records(
                    old(self).table(),
                    old(self).next_row_id(),
                    final(self).table(),
                    final(self).next_row_id(),
                    result,
                    old(self).preferences().max_items,
                    sha256(vstd::utf8::encode_utf8(text@)),
                    Capture {
                        kind: ClipboardContentKind::Text,
                        content: text@,
                        source_application: opt_text(metadata.source_application),
                        source_process: opt_text(metadata.source_process),
                        captured_at_ms: metadata.captured_at_ms as i64,
                        byte_size: vstd::utf8::encode_utf8(text@).len() as i64,
                    },
                )
            },
    {
        if should_ignore_source(&metadata, &self.settings) || matches_sensitive_rule(text.as_str(), &self.settings) {
            return not_retained_result();
        }
        if text.as_str().is_empty() {
            return Err(ClipboardError::EmptyText);
        }
        let bytes = text.as_str().as_bytes();
        if bytes.len() > MAX_TEXT_BYTES {
            return Err(ClipboardError::TextTooLarge);
        }
        match validate_metadata(&metadata) {
            Ok(()) => {},
            Err(error) => {
                return Err(error);
            },
        }
        let hash = sha256_digest(bytes);
        let byte_size = bytes.len() as i64;
        let captured_at_ms = metadata.captured_at_ms as i64;
        let id = match self.upsert(
            ClipboardContentKind::Text,
            hash,
            text,
            metadata.source_application,
            metadata.source_process,
            captured_at_ms,
            byte_size,
        ) {
            Ok(id) => id,
            Err(error) => {
                return Err(error);
            },
        };
        let removed = self.evict();
        self.remove_image_references(removed);
        self.record_result(id)
    }

    /// Checks a file list: 1 to 128 paths of 1 to 32767 code units without
    /// NUL, each naming an existing regular file, whose sizes add up to at
    /// most 2^53-1 bytes; returns the total size.
    #[verifier::loop_isolation(false)]
    fn validate_file_paths(&mut self, paths: &Vec<Vec<u16>>, unavailable: bool) -> (result: Result<u64, ClipboardError>)
        ensures
            final(self).table() == old(self).table(),
            final(self).next_row_id() == old(self).next_row_id(),
            final(self).wf() == old(self).wf(),
            final(self).preferences() == old(self).preferences(),
            final(self).settings_table() == old(self).settings_table(),
            final(self).observations() == old(self).observations(),
            result matches Ok(size) ==> valid_path_list(unit_lists(paths@)) && size <= JS_MAX_SAFE_INTEGER,
            result matches Err(error) ==> error == file_list_error(unavailable),
            log_extends(old(self).file_calls(), final(self).file_calls()),
            file_check_follows(unit_lists(paths@), unavailable, log_since(old(self).file_calls(), final(self).file_calls()), result),
    {
        let ghost start = self.file_calls();
        proof {
            lemma_log_since_self(start);
        }
        let file_error = if unavailable {
            ClipboardError::FilesUnavailable
        } else {
            ClipboardError::InvalidFiles
        };
        if paths.len() == 0 || paths.len() > MAX_CLIPBOARD_FILES {
            return Err(file_error);
        }
        let ghost lists = unit_lists(paths@);
        let mut byte_size: u64 = 0;
        let mut i: usize = 0;
        while i < paths.len()
            invariant
                i <= paths@.len(),
                0 < paths@.len() <= MAX_CLIPBOARD_FILES,
                lists == unit_lists(paths@),
                file_error == file_list_error(unavailable),
                byte_size <= JS_MAX_SAFE_INTEGER,
                forall|k: int| 0 <= k < i ==> valid_path_units(#[trigger] lists[k]),
                self.table() == old(self).table(),
                self.next_row_id() == old(self).next_row_id(),
                self.wf() == old(self).wf(),
                self.preferences() == old(self).preferences(),
                self.settings_table() == old(self).settings_table(),
                self.observations() == old(self).observations(),
                start == old(self).file_calls(),
                log_extends(start, self.file_calls()),
                log_since(start, self.file_calls()).len() == i,
                byte_size == sizes_total(log_since(start, self.file_calls())),
                forall|k: int|
                    0 <= k < i ==> #[trigger] log_since(start, self.file_calls())[k] == FileCall::RegularFileSize(
                        lists[k],
                        file_size_answer(log_since(start, self.file_calls())[k]),
                    ),
                forall|k: int| 0 <= k < i ==> file_size_answer(#[trigger] log_since(start, self.file_calls())[k]) is Some,
            decreases paths.len() - i,
        {
            let path = &paths[i];
            if path.len() == 0 || path.len() > MAX_CLIPBOARD_FILE_PATH_UNITS {
                return Err(file_error);
            }
            let mut j: usize = 0;
            while j < path.len()
                invariant
                    j <= path@.len(),
                    forall|k: int| 0 <= k < j ==> path@[k] != 0,
                decreases path.len() - j,
            {
                if path[j] == 0 {
                    return Err(file_error);
                }
                j += 1;
            }
            assert(lists[i as int] == path@);
            let ghost before = self.file_calls();
            let answer = self.files.regular_file_size(path.as_slice());
            proof {
                lemma_log_push(before, FileCall::RegularFileSize(path@, answer));
                crate::listener::lemma_log_since_split(start, before, self.file_calls());
                let done = log_since(start, before);
                let now = log_since(start, self.file_calls());
                assert(now =~= done.push(FileCall::RegularFileSize(path@, answer)));
                assert(now.drop_last() =~= done);
            }
            let size = match answer {
                Some(size) => size,
                None => {
                    return Err(file_error);
                },
            };
            byte_size = match byte_size.checked_add(size) {
                Some(total) => total,
                None => {
                    return Err(file_error);
                },
            };
            if byte_size > JS_MAX_SAFE_INTEGER {
                return Err(file_error);
            }
            i += 1;
        }
        Ok(byte_size)
    }

    /// Records a copied file list. A list from an ignored application is
    /// dropped; metadata beyond its limits and invalid or unavailable lists
    /// are rejected; otherwise the list is stored as JSON (the row holding
    /// the same list is refreshed) and the history trimmed.
    pub fn record_files(&mut self, paths: Vec<Vec<u16>>, metadata: ClipboardCaptureMetadata) -> (result: Result<
        ClipboardRecordResult,
        ClipboardError,
    >)
        requires
            old(self).wf(),
        ensures
            final(self).wf(),
            final(self).preferences() == old(self).preferences(),
            final(self).settings_table() == old(self).settings_table(),
            final(self).observations() == old(self).observations(),
            if source_ignored(metadata, old(self).preferences()) {
                not_retained(result) && final(self).table() == old(self).table() && final(self).next_row_id()
                    == old(self).next_row_id()
            } else if metadata_error(metadata) is Some || !valid_path_list(unit_lists(paths@)) {
                result == Err::<ClipboardRecordResult, ClipboardError>(
                    if metadata_error(metadata) is Some {
                        metadata_error(metadata)->0
                    } else {
                        ClipboardError::InvalidFiles
                    },
                ) && final(self).table() == old(self).table() && final(self).next_row_id() == old(self).next_row_id()
            } else {
                ||| result == Err::<ClipboardRecordResult, ClipboardError>(ClipboardError::InvalidFiles)
                    && final(self).table() == old(self).table() && final(self).next_row_id() == old(self).next_row_id()
                ||| exists|size: i64|
                    0 <= size <= JS_MAX_SAFE_INTEGER && #[trigger] records(
                        old(self).table(),
                        old(self).next_row_id(),
                        final(self).table(),
                        final(self).next_row_id(),
                        result,
                        old(self).preferences().max_items,
                        sha256(path_hash_input(unit_lists(paths@))),
                        capture_of_files(paths, metadata, size),
                    )
            },
            result matches Ok(recorded) ==> (recorded.item matches Some(item) ==> item.view_item().file_paths == Some(
                unit_lists(paths@),
            )),
    {
        if should_ignore_source(&metadata, &self.settings) {
            return not_retained_result();
        }
        match validate_metadata(&metadata) {
            Ok(()) => {},
            Err(error) => {
                return Err(error);
            },
        }
        let byte_size = match self.validate_file_paths(&paths, false) {
            Ok(size) => size,
            Err(error) => {
                return Err(error);
            },
        };
        let json = match path_lists_to_json(&paths) {
            Some(json) => json,
            None => {
                return Err(ClipboardError::InvalidFiles);
            },
        };
        if json.as_str().as_bytes().len() > MAX_CLIPBOARD_FILE_PATHS_JSON_BYTES {
            return Err(ClipboardError::InvalidFiles);
        }
        let ghost json_text = json@;
        let hash_input = path_hash_bytes(&paths);
        let hash = sha256_digest(hash_input.as_slice());
        let captured_at_ms = metadata.captured_at_ms as i64;
        let size = byte_size as i64;
        let ghost capture = capture_of_files(paths, metadata, size);
        let id = match self.upsert(
            ClipboardContentKind::Files,
            hash,
            json,
            metadata.source_application,
            metadata.source_process,
            captured_at_ms,
            size,
        ) {
            Ok(id) => id,
            Err(error) => {
                assert(records(
                    old(self).table(),
                    old(self).next_row_id(),
                    self.table(),
                    self.next_row_id(),
                    Err(error),
                    old(self).preferences().max_items,
                    sha256(path_hash_input(unit_lists(paths@))),
                    capture,
                ));
                return Err(error);
            },
        };
        let removed = self.evict();
        self.remove_image_references(removed);
        let result = self.record_result(id);
        assert(records(
            old(self).table(),
            old(self).next_row_id(),
            self.table(),
            self.next_row_id(),
            result,
            old(self).preferences().max_items,
            sha256(path_hash_input(unit_lists(paths@))),
            capture,
        ));
        proof {
            old(self).lemma_wf_unique();
            lemma_recorded_files_read_back(
                old(self).table(),
                old(self).next_row_id(),
                self.table(),
                self.next_row_id(),
                result,
                old(self).preferences().max_items,
                sha256(path_hash_input(unit_lists(paths@))),
                paths,
                metadata,
                size,
            );
        }
        result
    }

    /// Records a copied image. An image from an ignored application is
    /// dropped; metadata beyond its limits is rejected; otherwise the pixels
    /// are stored as a managed image and its reference stored (the row
    /// holding the same image is refreshed) and the history trimmed. A newly
    /// created image whose row could not be stored is removed again.
    pub fn record_image(&mut self, width: u32, height: u32, rgba: Vec<u8>, metadata: ClipboardCaptureMetadata) -> (result: Result<
        ClipboardRecordResult,
        ClipboardError,
    >)
        requires
            old(self).wf(),
        ensures
            final(self).wf(),
            final(self).preferences() == old(self).preferences(),
            final(self).settings_table() == old(self).settings_table(),
            final(self).observations() == old(self).observations(),
            if source_ignored(metadata, old(self).preferences()) {
                not_retained(result) && final(self).table() == old(self).table() && final(self).next_row_id()
                    == old(self).next_row_id()
            } else if metadata_error(metadata) is Some {
                result == Err::<ClipboardRecordResult, ClipboardError>(metadata_error(metadata)->0)
                    && final(self).table() == old(self).table() && final(self).next_row_id() == old(self).next_row_id()
            } else {
                ||| (result matches Err(ClipboardError::Image(_)) || result
                    == Err::<ClipboardRecordResult, ClipboardError>(ClipboardError::NumericRange))
                    && final(self).table() == old(self).table() && final(self).next_row_id() == old(self).next_row_id()
                ||| exists|reference: Seq<char>, hash: Seq<u8>, size: i64|
                    0 <= size <= JS_MAX_SAFE_INTEGER && #[trigger] records(
                        old(self).table(),
                        old(self).next_row_id(),
                        final(self).table(),
                        final(self).next_row_id(),
                        result,
                        old(self).preferences().max_items,
                        hash,
                        capture_of_image(reference, metadata, size),
                    )
            },
    {
        if should_ignore_source(&metadata, &self.settings) {
            return not_retained_result();
        }
        match validate_metadata(&metadata) {
            Ok(()) => {},
            Err(error) => {
                return Err(error);
            },
        }
        let stored = match self.files.store_rgba(width, height, rgba.as_slice()) {
            Ok(stored) => stored,
            Err(error) => {
                return Err(ClipboardError::Image(error));
            },
        };
        if stored.byte_size > JS_MAX_SAFE_INTEGER {
            return Err(ClipboardError::NumericRange);
        }
        let captured_at_ms = metadata.captured_at_ms as i64;
        let size = stored.byte_size as i64;
        let reference = stored.reference.clone();
        let ghost capture = capture_of_image(stored.reference@, metadata, size);
        let ghost hash = stored.hash@;
        let id = match self.upsert(
            ClipboardContentKind::Image,
            stored.hash,
            stored.reference,
            metadata.source_application,
            metadata.source_process,
            captured_at_ms,
            size,
        ) {
            Ok(id) => id,
            Err(error) => {
                if stored.newly_created {
                    self.cleanup_if_unreferenced(reference.as_str());
                }
                assert(records(
                    old(self).table(),
                    old(self).next_row_id(),
                    self.table(),
                    self.next_row_id(),
                    Err(error),
                    old(self).preferences().max_items,
                    hash,
                    capture,
                ));
                return Err(error);
            },
        };
        let removed = self.evict();
        self.remove_image_references(removed);
        let result = self.record_result(id);
        assert(records(
            old(self).table(),
            old(self).next_row_id(),
            self.table(),
            self.next_row_id(),
            result,
            old(self).preferences().max_items,
            hash,
            capture,
        ));
        result
    }
}

/// The capture a file list makes.
pub open spec fn capture_of_files(paths: Vec<Vec<u16>>, metadata: ClipboardCaptureMetadata, size: i64) -> Capture {
    Capture {
        kind: ClipboardContentKind::Files,
        content: path_lists_json(unit_lists(paths@)),
        source_application: opt_text(metadata.source_application),
        source_process: opt_text(metadata.source_process),
        captured_at_ms: metadata.captured_at_ms as i64,
        byte_size: size,
    }
}

/// The row holding `id` in rows whose ids are distinct is the row of
/// `all` with that id, whatever subsequence of `all` they are.
proof fn lemma_file_list_of_row(rows: Seq<StoredRow>, all: Seq<StoredRow>, j: int, paths: Seq<Seq<u16>>)
    requires
        rows_unique(all),
        forall|k: int| 0 <= k < rows.len() ==> all.contains(#[trigger] rows[k]),
        0 <= j < all.len(),
        all[j].row.file_paths_json matches Some(text) && json_path_lists(text) == Some(paths)
            && vstd::utf8::encode_utf8(text).len() <= MAX_CLIPBOARD_FILE_PATHS_JSON_BYTES,
        item_with_id(rows, all[j].row.id) is Ok,
    ensures
        item_with_id(rows, all[j].row.id) matches Ok(found) && (found matches Some(item) ==> item.file_paths == Some(
            paths,
        )),
{
    let id = all[j].row.id;
    if exists|i: int| 0 <= i < rows.len() && #[trigger] rows[i].row.id == id {
        let i = choose|i: int| 0 <= i < rows.len() && #[trigger] rows[i].row.id == id;
        assert(all.contains(rows[i]));
        let k = choose|k: int| 0 <= k < all.len() && all[k] == rows[i];
        if k != j {
            if k < j {
                assert(all[k].row.id != all[j].row.id);
            } else {
                assert(all[j].row.id != all[k].row.id);
            }
        }
    }
}

/// A file list that the history keeps reads back as the same paths: the
/// item that storing it reports holds exactly the captured list.
pub proof fn lemma_recorded_files_read_back(
    before: Seq<StoredRow>,
    before_next: i64,
    after: Seq<StoredRow>,
    after_next: i64,
    result: Result<ClipboardRecordResult, ClipboardError>,
    capacity: u32,
    hash: Seq<u8>,
    paths: Vec<Vec<u16>>,
    metadata: ClipboardCaptureMetadata,
    size: i64,
)
    requires
        rows_unique(before),
        forall|i: int| 0 <= i < before.len() ==> #[trigger] below_next(before[i].row.id, before_next),
        records(before, before_next, after, after_next, result, capacity, hash, capture_of_files(paths, metadata, size)),
        json_path_lists(path_lists_json(unit_lists(paths@))) == Some(unit_lists(paths@)),
        vstd::utf8::encode_utf8(path_lists_json(unit_lists(paths@))).len() <= MAX_CLIPBOARD_FILE_PATHS_JSON_BYTES,
    ensures
        result matches Ok(recorded) ==> (recorded.item matches Some(item) ==> item.view_item().file_paths == Some(
            unit_lists(paths@),
        )),
{
    let capture = capture_of_files(paths, metadata, size);
    if let Ok((stored, next, id)) = upserted(before, before_next, hash, capture) {
        let j: int = match content_index(before, capture.kind, hash) {
            Some(i) => i,
            None => before.len() as int,
        };
        assert(stored[j].row.id == id);
        assert(stored[j].row.file_paths_json == Some(capture.content));
        assert(rows_unique(stored)) by {
            assert forall|a: int, b: int| 0 <= a < b < stored.len() implies #[trigger] stored[a].row.id
                != #[trigger] stored[b].row.id by {
                if content_index(before, capture.kind, hash) is None && b == before.len() {
                    assert(stored[a] == before[a]);
                    assert(below_next(before[a].row.id, before_next));
                }
            }
            assert forall|a: int, b: int|
                0 <= a < b < stored.len() implies !(#[trigger] stored[a].row.content_type == #[trigger] stored[b].row.content_type
                && stored[a].hash == stored[b].hash) by {
                if content_index(before, capture.kind, hash) is None && b == before.len() {
                    assert(stored[a] == before[a]);
                }
            }
        }
        let kept = after_eviction(stored, capacity);
        if stored.len() > capacity {
            lemma_survivors_unique(stored, stored, stored.len() - capacity);
        }
        assert forall|k: int| 0 <= k < kept.len() implies stored.contains(#[trigger] kept[k]) by {
            if stored.len() <= capacity {
                assert(stored[k] == kept[k]);
            }
        }
        assert(stored_capture(before, before_next, capacity, hash, capture) == Ok::<
            (Seq<StoredRow>, i64, i64),
            ClipboardError,
        >((kept, next, id)));
        assert(reports_row(result, kept, id));
        if item_with_id(kept, id) is Ok {
            lemma_file_list_of_row(kept, stored, j, unit_lists(paths@));
        }
        match item_with_id(kept, id) {
            Ok(Some(view)) => {
                assert(view.file_paths == Some(unit_lists(paths@)));
            },
            _ => {},
        }
    } else {
        assert(result is Err);
    }
}

/// The capture a stored image makes.
pub open spec fn capture_of_image(reference: Seq<char>, metadata: ClipboardCaptureMetadata, size: i64) -> Capture {
    Capture {
        kind: ClipboardContentKind::Image,
        content: reference,
        source_application: opt_text(metadata.source_application),
        source_process: opt_text(metadata.source_process),
        captured_at_ms: metadata.captured_at_ms as i64,
        byte_size: size,
    }
}


// ---------------------------------------------------------------------------
// Queries.

/// A history query: favorites only or all, an optional search, and how many
/// items to return.
#[derive(Debug, Clone, PartialEq, Eq)]
pub struct ClipboardHistoryQuery {
    pub favorites_only: bool,
    pub search: Option<String>,
    pub limit: u32,
}

/// A page of history: the first items, newest first, and how many items
/// matched in all.
#[derive(Debug, Clone, PartialEq, Eq)]
pub struct ClipboardHistoryPage {
    pub items: Vec<ClipboardHistoryItem>,
    pub total_count: u64,
}

/// The text of an optional column, empty when absent.
pub open spec fn text_or_empty(value: Option<Seq<char>>) -> Seq<char> {
    match value {
        Some(text) => text,
        None => Seq::empty(),
    }
}

/// What a search looks in: the text, the source application and the source
/// process, separated by spaces and ASCII-lowercased (as SQLite's `lower`).
pub open spec fn search_haystack(row: RawRow) -> Seq<char> {
    lower_ascii(
        text_or_empty(row.text_content) + seq![' '] + text_or_empty(row.source_application) + seq![' ']
            + text_or_empty(row.source_process),
    )
}

/// Whether `needle` occurs in `haystack`.
pub open spec fn contains_text(haystack: Seq<char>, needle: Seq<char>) -> bool {
    exists|start: int|
        0 <= start && start + needle.len() <= haystack.len() && #[trigger] haystack.subrange(
            start,
            start + needle.len(),
        ) == needle
}

/// Whether a row matches a query: a favorite when only favorites are asked
/// for, and holding the search, ignoring ASCII case, when there is one.
pub open spec fn row_matches(row: RawRow, favorites_only: bool, search: Option<Seq<char>>) -> bool {
    &&& (!favorites_only || row.is_favorite == 1)
    &&& match search {
        None => true,
        Some(needle) => contains_text(search_haystack(row), lower_ascii(needle)),
    }
}

/// The search a query runs: none when it is absent or empty.
pub open spec fn effective_search(search: Option<Seq<char>>) -> Option<Seq<char>> {
    match search {
        Some(needle) => if needle.len() > 0 { Some(needle) } else { None },
        None => None,
    }
}

/// The valid items of the matching rows, in table order.
pub open spec fn matching_items(rows: Seq<StoredRow>, favorites_only: bool, search: Option<Seq<char>>) -> Seq<ItemView>
    decreases rows.len(),
{
    if rows.len() == 0 {
        Seq::empty()
    } else {
        let front = matching_items(rows.drop_last(), favorites_only, search);
        if row_matches(rows.last().row, favorites_only, search) && item_from_row(rows.last().row) is Some {
            front.push(item_from_row(rows.last().row)->0)
        } else {
            front
        }
    }
}

/// How many matching rows are corrupt.
pub open spec fn corrupt_matches(rows: Seq<StoredRow>, favorites_only: bool, search: Option<Seq<char>>) -> nat
    decreases rows.len(),
{
    if rows.len() == 0 {
        0
    } else {
        corrupt_matches(rows.drop_last(), favorites_only, search) + if row_matches(
            rows.last().row,
            favorites_only,
            search,
        ) && item_from_row(rows.last().row) is None {
            1nat
        } else {
            0nat
        }
    }
}

/// Whether `a` comes before `b` newest first: captured later, or at the
/// same time with a larger id.
pub open spec fn newer(a: ItemView, b: ItemView) -> bool {
    a.captured_at_ms > b.captured_at_ms || (a.captured_at_ms == b.captured_at_ms && a.id > b.id)
}

/// How many items of `items` are newer than `item`.
pub open spec fn count_newer(items: Seq<ItemView>, item: ItemView) -> nat
    decreases items.len(),
{
    if items.len() == 0 {
        0
    } else {
        count_newer(items.drop_last(), item) + if newer(items.last(), item) { 1nat } else { 0nat }
    }
}

/// `items` arranged newest first.
pub open spec fn newest_first(items: Seq<ItemView>) -> Seq<ItemView>
    decreases items.len(),
{
    if items.len() == 0 {
        Seq::empty()
    } else {
        let sorted = newest_first(items.drop_last());
        sorted.insert(count_newer(sorted, items.last()) as int, items.last())
    }
}

/// Whether no item of `items` is newer than an item before it.
pub open spec fn newest_first_order(items: Seq<ItemView>) -> bool {
    forall|i: int, j: int| 0 <= i < j < items.len() ==> !newer(#[trigger] items[j], #[trigger] items[i])
}

/// In items that are newest first, the items newer than `item` come first.
proof fn lemma_newer_prefix(items: Seq<ItemView>, item: ItemView)
    requires
        newest_first_order(items),
    ensures
        count_newer(items, item) <= items.len(),
        forall|k: int| 0 <= k < count_newer(items, item) ==> newer(#[trigger] items[k], item),
        forall|k: int| count_newer(items, item) <= k < items.len() ==> !newer(#[trigger] items[k], item),
    decreases items.len(),
{
    if items.len() > 0 {
        let front = items.drop_last();
        let last = items.last();
        assert forall|i: int, j: int| 0 <= i < j < front.len() implies !newer(#[trigger] front[j], #[trigger] front[i]) by {
            assert(front[i] == items[i] && front[j] == items[j]);
        }
        lemma_newer_prefix(front, item);
        let c = count_newer(front, item);
        if newer(last, item) {
            assert forall|k: int| 0 <= k < front.len() implies newer(#[trigger] front[k], item) by {
                assert(front[k] == items[k]);
                assert(items[items.len() - 1] == last);
                assert(!newer(items[items.len() - 1], items[k]));
            }
            if c < front.len() {
                assert(newer(front[c as int], item));
            }
        }
        assert forall|k: int| 0 <= k < count_newer(items, item) implies newer(#[trigger] items[k], item) by {
            if k < front.len() {
                assert(front[k] == items[k]);
            }
        }
        assert forall|k: int| count_newer(items, item) <= k < items.len() implies !newer(#[trigger] items[k], item) by {
            if k < front.len() {
                assert(front[k] == items[k]);
            }
        }
    }
}

/// A history page lists items newest first (later capture first, then
/// larger id), and arranging them loses or adds no item.
pub proof fn lemma_newest_first_sorted(items: Seq<ItemView>)
    ensures
        newest_first_order(newest_first(items)),
        newest_first(items).to_multiset() == items.to_multiset(),
    decreases items.len(),
{
    if items.len() > 0 {
        let front = items.drop_last();
        let x = items.last();
        lemma_newest_first_sorted(front);
        let sorted = newest_first(front);
        lemma_newer_prefix(sorted, x);
        let c = count_newer(sorted, x) as int;
        let result = sorted.insert(c, x);
        assert(result == newest_first(items));
        assert forall|i: int, j: int| 0 <= i < j < result.len() implies !newer(#[trigger] result[j], #[trigger] result[i]) by {
            if j < c {
                assert(result[i] == sorted[i] && result[j] == sorted[j]);
            } else if j == c {
                assert(result[i] == sorted[i]);
                assert(newer(sorted[i], x));
            } else if i < c {
                assert(result[i] == sorted[i] && result[j] == sorted[j - 1]);
            } else if i == c {
                assert(result[j] == sorted[j - 1]);
                assert(!newer(sorted[j - 1], x));
            } else {
                assert(result[i] == sorted[i - 1] && result[j] == sorted[j - 1]);
            }
        }
        broadcast use vstd::multiset::group_multiset_axioms;
        sorted.insert_ensures(c, x);
        result.to_multiset_ensures();
        front.to_multiset_ensures();
        assert(result.remove(c) =~= sorted);
        assert(result.contains(result[c]));
        assert(result.to_multiset() =~= sorted.to_multiset().insert(x));
        assert(items =~= front.push(x));
        assert(front.push(x).to_multiset() =~= front.to_multiset().insert(x));
        assert(items.to_multiset() == front.to_multiset().insert(x));
    } else {
        assert(items =~= Seq::<ItemView>::empty());
        assert(newest_first(items) =~= Seq::<ItemView>::empty());
    }
}

/// The views of items.
pub open spec fn item_views(items: Seq<ClipboardHistoryItem>) -> Seq<ItemView> {
    Seq::new(items.len(), |i: int| items[i].view_item())
}

/// The counter after adding `skipped` observations (it wraps, as an atomic
/// counter does).
pub open spec fn counted(observations: u64, skipped: nat) -> u64 {
    ((observations + skipped) % 0x1_0000_0000_0000_0000) as u64
}

/// Whether a history query at time `now` took the counter of corrupt rows
/// from `before` to `after`: the matching corrupt rows left after retention
/// are counted once a valid query runs; a failed retention or an invalid
/// query counts nothing.
pub open spec fn history_observed(
    rows: Seq<StoredRow>,
    settings: SettingsModel,
    query: ClipboardHistoryQuery,
    now: u64,
    before: u64,
    after: u64,
) -> bool {
    match after_retention(rows, settings.retention_days, settings.max_items, now) {
        Err(_) => after == before,
        Ok(kept) => if !(1 <= query.limit <= 100) || (opt_text(query.search) matches Some(needle) && needle.len()
            > 256) {
            after == before
        } else {
            after == counted(before, corrupt_matches(kept, query.favorites_only, effective_search(opt_text(query.search))))
        },
    }
}

/// The counter of corrupt rows never goes down, short of wrapping round.
pub proof fn lemma_counted_grows(observations: u64, skipped: nat)
    requires
        observations + skipped <= u64::MAX,
    ensures
        counted(observations, skipped) >= observations,
        counted(observations, skipped) == observations + skipped,
{
}

/// Whether the history page answers the query on `rows`: the matching valid
/// items newest first, cut to the limit, with their total count.
pub open spec fn answers(
    result: Result<ClipboardHistoryPage, ClipboardError>,
    rows: Seq<StoredRow>,
    query: ClipboardHistoryQuery,
) -> bool {
    let items = newest_first(matching_items(rows, query.favorites_only, effective_search(opt_text(query.search))));
    if items.len() > JS_MAX_SAFE_INTEGER {
        result == Err::<ClipboardHistoryPage, ClipboardError>(ClipboardError::NumericRange)
    } else {
        result matches Ok(page) && page.total_count == items.len() && item_views(page.items@) == items.take(
            if query.limit < items.len() { query.limit as int } else { items.len() as int },
        )
    }
}

/// The characters a search looks in.
fn haystack_of(raw: &RawClipboardHistoryItem) -> (chars: Vec<char>)
    ensures
        chars@ == search_haystack(raw.row()),
{
    let mut chars: Vec<char> = Vec::new();
    if let Some(text) = &raw.text_content {
        chars = chars_of(text.as_str());
    }
    let ghost first = chars@;
    chars.push(' ');
    let mut rest = match &raw.source_application {
        Some(app) => chars_of(app.as_str()),
        None => Vec::new(),
    };
    chars.append(&mut rest);
    chars.push(' ');
    let mut last = match &raw.source_process {
        Some(process) => chars_of(process.as_str()),
        None => Vec::new(),
    };
    chars.append(&mut last);
    assert(chars@ =~= text_or_empty(raw.row().text_content) + seq![' '] + text_or_empty(raw.row().source_application)
        + seq![' '] + text_or_empty(raw.row().source_process));
    lowercase_ascii(&mut chars);
    chars
}

/// Whether `needle` occurs in `haystack`.
fn find_text(haystack: &Vec<char>, needle: &Vec<char>) -> (found: bool)
    ensures
        found == contains_text(haystack@, needle@),
{
    if needle.len() > haystack.len() {
        return false;
    }
    let hay_len = haystack.len();
    let last = hay_len - needle.len();
    let mut start: usize = 0;
    while start <= last
        invariant
            hay_len == haystack@.len(),
            last == haystack@.len() - needle@.len(),
            needle@.len() <= haystack@.len(),
            forall|s: int| 0 <= s < start ==> #[trigger] haystack@.subrange(s, s + needle@.len()) != needle@,
        decreases last + 1 - start,
    {
        let mut j: usize = 0;
        let mut same = true;
        while j < needle.len()
            invariant
                start <= last,
                hay_len == haystack@.len(),
                needle@.len() <= haystack@.len(),
                last == haystack@.len() - needle@.len(),
                j <= needle@.len(),
                same == forall|k: int| 0 <= k < j ==> haystack@[start + k] == needle@[k],
            decreases needle.len() - j,
        {
            if haystack[start + j] != needle[j] {
                same = false;
            }
            j += 1;
        }
        if same {
            assert(haystack@.subrange(start as int, start + needle@.len()) =~= needle@);
            return true;
        }
        proof {
            if haystack@.subrange(start as int, start + needle@.len()) == needle@ {
                assert forall|k: int| 0 <= k < needle@.len() implies haystack@[start + k] == needle@[k] by {
                    assert(haystack@.subrange(start as int, start + needle@.len())[k] == needle@[k]);
                }
            }
        }
        if start == last {
            proof {
                assert forall|s: int| 0 <= s && s + needle@.len() <= haystack@.len() implies #[trigger] haystack@.subrange(
                    s,
                    s + needle@.len(),
                ) != needle@ by {
                    assert(s <= start);
                }
            }
            return false;
        }
        start += 1;
    }
    proof {
        assert forall|s: int| 0 <= s && s + needle@.len() <= haystack@.len() implies #[trigger] haystack@.subrange(
            s,
            s + needle@.len(),
        ) != needle@ by {
            assert(s < start);
        }
    }
    false
}

/// How many items of `items` are newer than `item`.
fn count_newer_items(items: &Vec<ClipboardHistoryItem>, item: &ClipboardHistoryItem) -> (count: usize)
    ensures
        count == count_newer(item_views(items@), item.view_item()),
{
    let ghost views = item_views(items@);
    let mut count: usize = 0;
    let mut i: usize = 0;
    while i < items.len()
        invariant
            i <= items@.len(),
            views == item_views(items@),
            count <= i,
            count == count_newer(views.subrange(0, i as int), item.view_item()),
        decreases items.len() - i,
    {
        assert(views.subrange(0, i + 1).drop_last() =~= views.subrange(0, i as int));
        let other = &items[i];
        if other.captured_at_ms > item.captured_at_ms || (other.captured_at_ms == item.captured_at_ms && other.id > item.id) {
            count += 1;
        }
        i += 1;
    }
    assert(views.subrange(0, items@.len() as int) =~= views);
    count
}

/// The valid matching items of `rows`, newest first, and how many matching
/// rows were corrupt.
fn collect_matching(rows: &Vec<HistoryRow>, favorites_only: bool, search: &Option<Vec<char>>) -> (result: (
    Vec<ClipboardHistoryItem>,
    u64,
))
    ensures
        item_views(result.0@) == newest_first(
            matching_items(
                stored_rows(rows@),
                favorites_only,
                match search {
                    Some(needle) => Some(needle@),
                    None => None,
                },
            ),
        ),
        result.1 == corrupt_matches(
            stored_rows(rows@),
            favorites_only,
            match search {
                Some(needle) => Some(needle@),
                None => None,
            },
        ),
{
    let ghost model = stored_rows(rows@);
    let ghost needle_view = match search {
        Some(needle) => Some(needle@),
        None => None::<Seq<char>>,
    };
    let lowered: Option<Vec<char>> = match search {
        Some(needle) => {
            let mut copy = needle.clone();
            assert(copy@ =~= needle@);
            lowercase_ascii(&mut copy);
            Some(copy)
        },
        None => None,
    };
    let mut items: Vec<ClipboardHistoryItem> = Vec::new();
    let mut skipped: u64 = 0;
    let mut i: usize = 0;
    while i < rows.len()
        invariant
            i <= rows@.len(),
            model == stored_rows(rows@),
            match search {
                Some(needle) => lowered matches Some(l) && l@ == lower_ascii(needle@),
                None => lowered is None,
            },
            needle_view == match search {
                Some(needle) => Some(needle@),
                None => None::<Seq<char>>,
            },
            skipped <= i,
            item_views(items@) == newest_first(matching_items(model.subrange(0, i as int), favorites_only, needle_view)),
            skipped == corrupt_matches(model.subrange(0, i as int), favorites_only, needle_view),
        decreases rows.len() - i,
    {
        let ghost prefix = model.subrange(0, i as int);
        assert(model.subrange(0, i + 1).drop_last() =~= prefix);
        assert(model.subrange(0, i + 1).last() == model[i as int]);
        let raw = &rows[i].raw;
        let favorite_ok = !favorites_only || raw.is_favorite == 1;
        let search_ok = match &lowered {
            None => true,
            Some(l) => find_text(&haystack_of(raw), l),
        };
        assert(raw.row() == model[i as int].row);
        assert((favorite_ok && search_ok) == row_matches(model[i as int].row, favorites_only, needle_view));
        if favorite_ok && search_ok {
            match ClipboardHistoryItem::try_from(copy_raw(raw)) {
                Ok(item) => {
                    let ghost before = item_views(items@);
                    let ghost matched = matching_items(prefix, favorites_only, needle_view);
                    let position = count_newer_items(&items, &item);
                    proof {
                        lemma_count_newer_bound(before, item.view_item());
                    }
                    items.insert(position, item);
                    assert(item_views(items@) =~= before.insert(position as int, item.view_item()));
                    assert(matching_items(model.subrange(0, i + 1), favorites_only, needle_view) == matched.push(
                        item.view_item(),
                    ));
                    assert(matched.push(item.view_item()).drop_last() =~= matched);
                },
                Err(_) => {
                    skipped = skipped + 1;
                },
            }
        }
        i += 1;
    }
    assert(model.subrange(0, rows@.len() as int) =~= model);
    (items, skipped)
}

proof fn lemma_count_newer_bound(items: Seq<ItemView>, item: ItemView)
    ensures
        count_newer(items, item) <= items.len(),
    decreases items.len(),
{
    if items.len() > 0 {
        lemma_count_newer_bound(items.drop_last(), item);
    }
}

impl<F: ClipboardFiles> ClipboardService<F> {
    /// Answers a history query: the limit must be 1 to 100 and the search at
    /// most 256 characters (an empty search matches everything); matching
    /// corrupt rows are skipped and counted.
    pub fn query_history(&mut self, query: ClipboardHistoryQuery) -> (result: Result<ClipboardHistoryPage, ClipboardError>)
        requires
            old(self).wf(),
        ensures
            final(self).wf(),
            final(self).table() == old(self).table(),
            final(self).file_calls() == old(self).file_calls(),
            final(self).next_row_id() == old(self).next_row_id(),
            final(self).preferences() == old(self).preferences(),
            final(self).settings_table() == old(self).settings_table(),
            if !(1 <= query.limit <= 100) {
                result == Err::<ClipboardHistoryPage, ClipboardError>(ClipboardError::InvalidLimit)
                    && final(self).observations() == old(self).observations()
            } else if opt_text(query.search) matches Some(needle) && needle.len() > 256 {
                result == Err::<ClipboardHistoryPage, ClipboardError>(ClipboardError::SearchTooLong)
                    && final(self).observations() == old(self).observations()
            } else {
                &&& answers(result, old(self).table(), query)
                &&& final(self).observations() == counted(
                    old(self).observations(),
                    corrupt_matches(
                        old(self).table(),
                        query.favorites_only,
                        effective_search(opt_text(query.search)),
                    ),
                )
            },
    {
        if query.limit < 1 || query.limit > 100 {
            return Err(ClipboardError::InvalidLimit);
        }
        let search: Option<Vec<char>> = match &query.search {
            Some(text) => {
                let chars = chars_of(text.as_str());
                if chars.len() > 256 {
                    return Err(ClipboardError::SearchTooLong);
                }
                if chars.len() == 0 {
                    None
                } else {
                    Some(chars)
                }
            },
            None => None,
        };
        assert(match search {
            Some(needle) => Some(needle@),
            None => None::<Seq<char>>,
        } == effective_search(opt_text(query.search)));
        let (mut items, skipped) = collect_matching(&self.rows, query.favorites_only, &search);
        if skipped > 0 {
            let observations = self.corrupt_history_row_observations;
            self.corrupt_history_row_observations = if observations > u64::MAX - skipped {
                observations - (u64::MAX - skipped) - 1
            } else {
                observations + skipped
            };
        }
        let total = items.len() as u64;
        if total > JS_MAX_SAFE_INTEGER {
            return Err(ClipboardError::NumericRange);
        }
        let ghost sorted = item_views(items@);
        items.truncate(query.limit as usize);
        assert(item_views(items@) =~= sorted.take(
            if query.limit < sorted.len() { query.limit as int } else { sorted.len() as int },
        ));
        Ok(ClipboardHistoryPage { items, total_count: total })
    }
}


// ---------------------------------------------------------------------------
// Changing rows.

/// The position of the row stored under `id`, if any.
pub open spec fn id_index(rows: Seq<StoredRow>, id: i64) -> Option<int> {
    if exists|i: int| 0 <= i < rows.len() && #[trigger] rows[i].row.id == id {
        Some(choose|i: int| 0 <= i < rows.len() && #[trigger] rows[i].row.id == id)
    } else {
        None
    }
}

/// Deleting an item leaves no row with its id, so deleting it again finds
/// nothing: in a table whose ids are distinct, removing the row that holds
/// `id` leaves no row holding it.
pub proof fn lemma_delete_leaves_no_row(rows: Seq<StoredRow>, id: i64)
    requires
        rows_unique(rows),
        id_index(rows, id) is Some,
    ensures
        id_index(rows.remove(id_index(rows, id)->0), id) is None,
{
    let i = id_index(rows, id)->0;
    let rest = rows.remove(i);
    if exists|k: int| 0 <= k < rest.len() && #[trigger] rest[k].row.id == id {
        let k = choose|k: int| 0 <= k < rest.len() && #[trigger] rest[k].row.id == id;
        if k < i {
            assert(rest[k] == rows[k]);
            assert(rows[k].row.id != rows[i].row.id);
        } else {
            assert(rest[k] == rows[k + 1]);
            assert(rows[i].row.id != rows[k + 1].row.id);
        }
    }
}

proof fn lemma_id_index(rows: Seq<StoredRow>, id: i64, i: int)
    requires
        rows_unique(rows),
        0 <= i < rows.len(),
        rows[i].row.id == id,
    ensures
        id_index(rows, id) == Some(i),
        item_with_id(rows, id) == match item_from_row(rows[i].row) {
            Some(item) => Ok::<Option<ItemView>, ClipboardError>(Some(item)),
            None => Err(ClipboardError::CorruptRecord),
        },
{
    let k = choose|k: int| 0 <= k < rows.len() && #[trigger] rows[k].row.id == id;
    if k != i {
        if k < i {
            assert(rows[k].row.id != rows[i].row.id);
        } else {
            assert(rows[i].row.id != rows[k].row.id);
        }
    }
}

proof fn lemma_id_absent(rows: Seq<StoredRow>, id: i64)
    requires
        forall|i: int| 0 <= i < rows.len() ==> rows[i].row.id != id,
    ensures
        id_index(rows, id) is None,
        item_with_id(rows, id) == Ok::<Option<ItemView>, ClipboardError>(None),
{
}

/// Replacing a row by one whose id and content differ from every other row
/// keeps the rows distinct.
proof fn lemma_update_unique(rows: Seq<StoredRow>, i: int, row: StoredRow)
    requires
        rows_unique(rows),
        0 <= i < rows.len(),
        forall|k: int| 0 <= k < rows.len() && k != i ==> #[trigger] rows[k].row.id != row.row.id && !(
            rows[k].row.content_type == row.row.content_type && rows[k].hash == row.hash),
    ensures
        rows_unique(rows.update(i, row)),
{
    let result = rows.update(i, row);
    assert forall|a: int, b: int| 0 <= a < b < result.len() implies #[trigger] result[a].row.id
        != #[trigger] result[b].row.id by {
        if a == i {
            assert(rows[b].row.id != row.row.id);
        } else if b == i {
            assert(rows[a].row.id != row.row.id);
        } else {
            assert(rows[a].row.id != rows[b].row.id);
        }
    }
    assert forall|a: int, b: int|
        0 <= a < b < result.len() implies !(#[trigger] result[a].row.content_type
        == #[trigger] result[b].row.content_type && result[a].hash == result[b].hash) by {
        if a == i {
            assert(rows[b].row.id != row.row.id);
            assert(!(rows[b].row.content_type == row.row.content_type && rows[b].hash == row.hash));
        } else if b == i {
            assert(rows[a].row.id != row.row.id);
            assert(!(rows[a].row.content_type == row.row.content_type && rows[a].hash == row.hash));
        } else {
            assert(!(rows[a].row.content_type == rows[b].row.content_type && rows[a].hash == rows[b].hash));
        }
    }
}

/// Removing rows keeps the rest distinct.
proof fn lemma_remove_unique(rows: Seq<StoredRow>, i: int)
    requires
        rows_unique(rows),
        0 <= i < rows.len(),
    ensures
        rows_unique(rows.remove(i)),
{
    let result = rows.remove(i);
    assert forall|a: int, b: int| 0 <= a < b < result.len() implies #[trigger] result[a].row.id
        != #[trigger] result[b].row.id by {
        let a2 = if a < i { a } else { a + 1 };
        let b2 = if b < i { b } else { b + 1 };
        assert(result[a] == rows[a2] && result[b] == rows[b2]);
        assert(rows[a2].row.id != rows[b2].row.id);
    }
    assert forall|a: int, b: int|
        0 <= a < b < result.len() implies !(#[trigger] result[a].row.content_type
        == #[trigger] result[b].row.content_type && result[a].hash == result[b].hash) by {
        let a2 = if a < i { a } else { a + 1 };
        let b2 = if b < i { b } else { b + 1 };
        assert(result[a] == rows[a2] && result[b] == rows[b2]);
        assert(!(rows[a2].row.content_type == rows[b2].row.content_type && rows[a2].hash == rows[b2].hash));
    }
}

/// A row with a new capture time.
pub open spec fn with_captured(row: RawRow, captured_at_ms: i64) -> RawRow {
    RawRow { captured_at_ms, ..row }
}

/// A row with a new favorite flag.
pub open spec fn with_favorite(row: RawRow, is_favorite: bool) -> RawRow {
    RawRow { is_favorite: if is_favorite { 1 } else { 0 }, ..row }
}

/// A text row after an edit: new text and size, revision up by one.
pub open spec fn edited(row: RawRow, text: Seq<char>, byte_size: i64) -> RawRow {
    RawRow {
        text_content: Some(text),
        byte_size,
        content_revision: (row.content_revision + 1) as i64,
        ..row
    }
}

/// `rows` with the row at `i` replaced, its hash kept.
pub open spec fn with_row(rows: Seq<StoredRow>, i: int, row: RawRow) -> Seq<StoredRow> {
    rows.update(i, StoredRow { row, hash: rows[i].hash })
}

/// Whether another text row than the one at `i` holds content with `hash`.
pub open spec fn duplicate_text(rows: Seq<StoredRow>, i: int, hash: Seq<u8>) -> bool {
    exists|k: int| 0 <= k < rows.len() && k != i && same_content(#[trigger] rows[k], ClipboardContentKind::Text, hash)
}

/// The rows left after clearing: the favorites.
pub open spec fn favorites(rows: Seq<StoredRow>) -> Seq<StoredRow>
    decreases rows.len(),
{
    if rows.len() == 0 {
        Seq::empty()
    } else if rows.last().row.is_favorite == 0 {
        favorites(rows.drop_last())
    } else {
        favorites(rows.drop_last()).push(rows.last())
    }
}

/// The managed-image references of the rows of `rows` that are not
/// favorites, in order.
pub open spec fn dropped_images(rows: Seq<StoredRow>) -> Seq<Seq<char>>
    decreases rows.len(),
{
    if rows.len() == 0 {
        Seq::empty()
    } else if rows.last().row.is_favorite == 0 {
        match rows.last().row.file_path {
            Some(reference) => dropped_images(rows.drop_last()).push(reference),
            None => dropped_images(rows.drop_last()),
        }
    } else {
        dropped_images(rows.drop_last())
    }
}

/// Whether no row of `rows` refers to the managed image `reference`.
pub open spec fn unreferenced(rows: Seq<StoredRow>, reference: Seq<char>) -> bool {
    forall|i: int| 0 <= i < rows.len() ==> (#[trigger] rows[i]).row.file_path != Some(reference)
}

/// The removals made for the references `references` once the table holds
/// `rows`: each reference, in order, that no row refers to any more.
pub open spec fn image_removals(rows: Seq<StoredRow>, references: Seq<Seq<char>>) -> Seq<FileCall>
    decreases references.len(),
{
    if references.len() == 0 {
        Seq::empty()
    } else if unreferenced(rows, references.last()) {
        image_removals(rows, references.drop_last()).push(FileCall::RemoveImage(references.last()))
    } else {
        image_removals(rows, references.drop_last())
    }
}

/// The rows retention keeps: favorites, and rows captured at or after the
/// cutoff.
pub open spec fn unexpired(rows: Seq<StoredRow>, cutoff: int) -> Seq<StoredRow>
    decreases rows.len(),
{
    if rows.len() == 0 {
        Seq::empty()
    } else if rows.last().row.is_favorite == 0 && rows.last().row.captured_at_ms < cutoff {
        unexpired(rows.drop_last(), cutoff)
    } else {
        unexpired(rows.drop_last(), cutoff).push(rows.last())
    }
}

/// The table after applying retention at time `now` (milliseconds since the
/// epoch) and trimming to capacity: rows older than the retention period
/// go unless they are favorites.
pub open spec fn after_retention(rows: Seq<StoredRow>, days: Option<u16>, capacity: u32, now: u64) -> Result<
    Seq<StoredRow>,
    ClipboardError,
> {
    match days {
        None => Ok(after_eviction(rows, capacity)),
        Some(d) => {
            let cutoff = if now >= d * 86_400_000 { now - d * 86_400_000 } else { 0 };
            if cutoff > i64::MAX {
                Err(ClipboardError::Storage(StorageError::LockPoisoned))
            } else {
                Ok(after_eviction(unexpired(rows, cutoff), capacity))
            }
        },
    }
}

proof fn lemma_filtered_unique(rows: Seq<StoredRow>, cutoff: int)
    requires
        rows_unique(rows),
    ensures
        rows_unique(unexpired(rows, cutoff)),
        rows_unique(favorites(rows)),
        forall|k: int| 0 <= k < unexpired(rows, cutoff).len() ==> rows.contains(#[trigger] unexpired(rows, cutoff)[k]),
        forall|k: int| 0 <= k < favorites(rows).len() ==> rows.contains(#[trigger] favorites(rows)[k]),
        unexpired(rows, cutoff).len() <= rows.len(),
        favorites(rows).len() <= rows.len(),
    decreases rows.len(),
{
    if rows.len() > 0 {
        let front = rows.drop_last();
        let last = rows.last();
        assert forall|i: int, j: int| 0 <= i < j < front.len() implies #[trigger] front[i].row.id != #[trigger] front[j].row.id by {
            assert(front[i] == rows[i] && front[j] == rows[j]);
        }
        assert forall|i: int, j: int|
            0 <= i < j < front.len() implies !(#[trigger] front[i].row.content_type == #[trigger] front[j].row.content_type
            && front[i].hash == front[j].hash) by {
            assert(front[i] == rows[i] && front[j] == rows[j]);
        }
        lemma_filtered_unique(front, cutoff);
        let a = unexpired(front, cutoff);
        let b = favorites(front);
        assert forall|k: int| 0 <= k < a.len() implies #[trigger] a[k].row.id != last.row.id && !(
            a[k].row.content_type == last.row.content_type && a[k].hash == last.hash) by {
            assert(front.contains(a[k]));
            let i = choose|i: int| 0 <= i < front.len() && front[i] == a[k];
            assert(rows[i] == a[k]);
            assert(rows[rows.len() - 1] == last);
        }
        assert forall|k: int| 0 <= k < b.len() implies #[trigger] b[k].row.id != last.row.id && !(
            b[k].row.content_type == last.row.content_type && b[k].hash == last.hash) by {
            assert(front.contains(b[k]));
            let i = choose|i: int| 0 <= i < front.len() && front[i] == b[k];
            assert(rows[i] == b[k]);
            assert(rows[rows.len() - 1] == last);
        }
        lemma_push_unique(a, last);
        lemma_push_unique(b, last);
        assert forall|k: int| 0 <= k < a.len() implies rows.contains(#[trigger] a[k]) by {
            assert(front.contains(a[k]));
            let i = choose|i: int| 0 <= i < front.len() && front[i] == a[k];
            assert(rows[i] == a[k]);
        }
        assert forall|k: int| 0 <= k < b.len() implies rows.contains(#[trigger] b[k]) by {
            assert(front.contains(b[k]));
            let i = choose|i: int| 0 <= i < front.len() && front[i] == b[k];
            assert(rows[i] == b[k]);
        }
        assert(rows[rows.len() - 1] == last);
        assert(a.push(last)[a.len() as int] == last);
        assert(b.push(last)[b.len() as int] == last);
        assert forall|k: int| 0 <= k < a.push(last).len() implies rows.contains(#[trigger] a.push(last)[k]) by {
            if k < a.len() {
                assert(a.push(last)[k] == a[k]);
            }
        }
        assert forall|k: int| 0 <= k < b.push(last).len() implies rows.contains(#[trigger] b.push(last)[k]) by {
            if k < b.len() {
                assert(b.push(last)[k] == b[k]);
            }
        }
    }
}

/// The current time in milliseconds since the Unix epoch (0 before the
/// epoch, saturated beyond `u64`); nothing is promised of its value.
#[verifier::external_body]
fn current_time_ms() -> u64 {
    match std::time::SystemTime::now().duration_since(std::time::UNIX_EPOCH) {
        Ok(duration) => u64::try_from(duration.as_millis()).unwrap_or(u64::MAX),
        Err(_) => 0,
    }
}

impl<F: ClipboardFiles> ClipboardService<F> {
    /// Moves the row `id` to the front by giving it the capture time `now`:
    /// `NumericRange` for a time beyond 2^53-1, `NotFound` without the row.
    pub fn promote_item_at(&mut self, id: i64, now: u64) -> (result: Result<(), ClipboardError>)
        requires
            old(self).wf(),
        ensures
            final(self).wf(),
            final(self).next_row_id() == old(self).next_row_id(),
            final(self).preferences() == old(self).preferences(),
            final(self).settings_table() == old(self).settings_table(),
            final(self).observations() == old(self).observations(),
            if now > JS_MAX_SAFE_INTEGER {
                result == Err::<(), ClipboardError>(ClipboardError::NumericRange) && final(self).table() == old(self).table()
            } else {
                match id_index(old(self).table(), id) {
                    None => result == Err::<(), ClipboardError>(ClipboardError::NotFound) && final(self).table() == old(self).table(),
                    Some(i) => result is Ok && final(self).table() == with_row(
                        old(self).table(),
                        i,
                        with_captured(old(self).table()[i].row, now as i64),
                    ),
                }
            },
    {
        if now > JS_MAX_SAFE_INTEGER {
            return Err(ClipboardError::NumericRange);
        }
        let ghost before = self.table();
        match index_of_id(&self.rows, id) {
            None => {
                proof {
                    assert forall|i: int| 0 <= i < before.len() implies before[i].row.id != id by {
                        assert(before[i].row.id == self.rows@[i].raw.id);
                    }
                    lemma_id_absent(before, id);
                }
                Err(ClipboardError::NotFound)
            },
            Some(i) => {
                proof {
                    lemma_id_index(before, id, i as int);
                }
                let mut row = self.rows.remove(i);
                row.raw.captured_at_ms = now as i64;
                self.rows.insert(i, row);
                proof {
                    let updated = with_captured(before[i as int].row, now as i64);
                    assert(self.table() =~= with_row(before, i as int, updated));
                    lemma_update_unique(before, i as int, StoredRow { row: updated, hash: before[i as int].hash });
                    assert forall|k: int| 0 <= k < self.rows@.len() implies #[trigger] below_next(self.rows@[k].raw.id, self.next_id) by {
                        assert(self.table()[k].row.id == before[k].row.id);
                        assert(before[k].row.id == old(self).rows@[k].raw.id);
                    }
                }
                Ok(())
            },
        }
    }

    /// Moves the row `id` to the front, as captured now.
    pub fn promote_item(&mut self, id: i64) -> (result: Result<(), ClipboardError>)
        requires
            old(self).wf(),
        ensures
            final(self).wf(),
            final(self).next_row_id() == old(self).next_row_id(),
            final(self).preferences() == old(self).preferences(),
            final(self).settings_table() == old(self).settings_table(),
            final(self).observations() == old(self).observations(),
            match id_index(old(self).table(), id) {
                None => result is Err && final(self).table() == old(self).table(),
                Some(i) => {
                    ||| result == Err::<(), ClipboardError>(ClipboardError::NumericRange) && final(self).table() == old(self).table()
                    ||| result is Ok && exists|now: u64|
                        now <= JS_MAX_SAFE_INTEGER && final(self).table() == with_row(
                            old(self).table(),
                            i,
                            #[trigger] with_captured(old(self).table()[i].row, now as i64),
                        )
                },
            },
    {
        let now = current_time_ms();
        self.promote_item_at(id, now)
    }

    /// Applies the history reuse preference after an item was copied or
    /// input: with `Promote` the item moves to the front, with `Keep` nothing
    /// changes.
    pub fn apply_history_reuse(&mut self, id: i64) -> (result: Result<(), ClipboardError>)
        requires
            old(self).wf(),
        ensures
            final(self).wf(),
            final(self).next_row_id() == old(self).next_row_id(),
            final(self).preferences() == old(self).preferences(),
            final(self).settings_table() == old(self).settings_table(),
            final(self).observations() == old(self).observations(),
            old(self).preferences().history_reuse_strategy == ClipboardHistoryReuseStrategy::Keep ==> result is Ok
                && final(self).table() == old(self).table(),
            old(self).preferences().history_reuse_strategy == ClipboardHistoryReuseStrategy::Promote ==> match id_index(
                old(self).table(),
                id,
            ) {
                None => result is Err && final(self).table() == old(self).table(),
                Some(i) => {
                    ||| result == Err::<(), ClipboardError>(ClipboardError::NumericRange) && final(self).table() == old(self).table()
                    ||| result is Ok && exists|now: u64|
                        now <= JS_MAX_SAFE_INTEGER && final(self).table() == with_row(
                            old(self).table(),
                            i,
                            #[trigger] with_captured(old(self).table()[i].row, now as i64),
                        )
                },
            },
    {
        match self.settings.history_reuse_strategy {
            ClipboardHistoryReuseStrategy::Promote => self.promote_item(id),
            ClipboardHistoryReuseStrategy::Keep => Ok(()),
        }
    }

    /// Marks the row `id` as a favorite or not and returns its item.
    pub fn set_favorite(&mut self, id: i64, is_favorite: bool) -> (result: Result<ClipboardHistoryItem, ClipboardError>)
        requires
            old(self).wf(),
        ensures
            final(self).wf(),
            final(self).next_row_id() == old(self).next_row_id(),
            final(self).preferences() == old(self).preferences(),
            final(self).settings_table() == old(self).settings_table(),
            final(self).observations() == old(self).observations(),
            match (if id > 0 { id_index(old(self).table(), id) } else { None }) {
                None => result == Err::<ClipboardHistoryItem, ClipboardError>(ClipboardError::NotFound) && final(self).table() == old(self).table(),
                Some(i) => {
                    &&& final(self).table() == with_row(
                        old(self).table(),
                        i,
                        with_favorite(old(self).table()[i].row, is_favorite),
                    )
                    &&& match item_from_row(with_favorite(old(self).table()[i].row, is_favorite)) {
                        Some(item) => result matches Ok(found) && found.view_item() == item,
                        None => result == Err::<ClipboardHistoryItem, ClipboardError>(ClipboardError::CorruptRecord),
                    }
                },
            },
    {
        match validate_id(id) {
            Ok(()) => {},
            Err(error) => {
                return Err(error);
            },
        }
        let ghost before = self.table();
        match index_of_id(&self.rows, id) {
            None => {
                proof {
                    assert forall|i: int| 0 <= i < before.len() implies before[i].row.id != id by {
                        assert(before[i].row.id == self.rows@[i].raw.id);
                    }
                    lemma_id_absent(before, id);
                }
                Err(ClipboardError::NotFound)
            },
            Some(i) => {
                proof {
                    lemma_id_index(before, id, i as int);
                }
                let mut row = self.rows.remove(i);
                row.raw.is_favorite = if is_favorite { 1 } else { 0 };
                self.rows.insert(i, row);
                let ghost updated = with_favorite(before[i as int].row, is_favorite);
                proof {
                    assert(self.table() =~= with_row(before, i as int, updated));
                    lemma_update_unique(before, i as int, StoredRow { row: updated, hash: before[i as int].hash });
                    assert forall|k: int| 0 <= k < self.rows@.len() implies #[trigger] below_next(self.rows@[k].raw.id, self.next_id) by {
                        assert(self.table()[k].row.id == before[k].row.id);
                        assert(before[k].row.id == old(self).rows@[k].raw.id);
                    }
                    lemma_id_index(self.table(), id, i as int);
                }
                match item_by_id(&self.rows, id) {
                    Ok(Some(item)) => Ok(item),
                    Ok(None) => Err(ClipboardError::NotFound),
                    Err(error) => Err(error),
                }
            },
        }
    }

    /// Edits the text of the text row `id`, guarded by its revision: the
    /// edit applies only while the row still has `expected_revision`, and is
    /// refused when another text row already holds the new text.
    #[verifier::loop_isolation(false)]
    #[verifier::spinoff_prover]
    pub fn update_text(&mut self, id: i64, text: String, expected_revision: u64) -> (result: Result<
        ClipboardHistoryItem,
        ClipboardError,
    >)
        requires
            old(self).wf(),
        ensures
            final(self).wf(),
            final(self).next_row_id() == old(self).next_row_id(),
            final(self).preferences() == old(self).preferences(),
            final(self).settings_table() == old(self).settings_table(),
            final(self).observations() == old(self).observations(),
            ({
                let bytes = vstd::utf8::encode_utf8(text@);
                let before = old(self).table();
                if id <= 0 {
                    result == Err::<ClipboardHistoryItem, ClipboardError>(ClipboardError::NotFound) && final(self).table()
                        == before
                } else if text@.len() == 0 {
                    result == Err::<ClipboardHistoryItem, ClipboardError>(ClipboardError::EmptyText) && final(self).table()
                        == before
                } else if bytes.len() > MAX_TEXT_BYTES {
                    result == Err::<ClipboardHistoryItem, ClipboardError>(ClipboardError::TextTooLarge) && final(self).table() == before
                } else if expected_revision > JS_MAX_SAFE_INTEGER {
                    result == Err::<ClipboardHistoryItem, ClipboardError>(ClipboardError::NumericRange) && final(self).table() == before
                } else {
                    match id_index(before, id) {
                        None => result == Err::<ClipboardHistoryItem, ClipboardError>(ClipboardError::NotFound) && final(self).table() == before,
                        Some(i) => if before[i].row.content_type != content_kind_name(ClipboardContentKind::Text) {
                            result == Err::<ClipboardHistoryItem, ClipboardError>(ClipboardError::NotFound) && final(self).table() == before
                        } else if before[i].row.content_revision < 0 {
                            result == Err::<ClipboardHistoryItem, ClipboardError>(
                                ClipboardError::Storage(StorageError::Unavailable),
                            ) && final(self).table() == before
                        } else if before[i].row.content_revision != expected_revision {
                            result == Err::<ClipboardHistoryItem, ClipboardError>(ClipboardError::RevisionConflict)
                                && final(self).table() == before
                        } else if duplicate_text(before, i, sha256(bytes)) {
                            result == Err::<ClipboardHistoryItem, ClipboardError>(ClipboardError::DuplicateText)
                                && final(self).table() == before
                        } else {
                            &&& final(self).table() == before.update(
                                i,
                                StoredRow { row: edited(before[i].row, text@, bytes.len() as i64), hash: sha256(bytes) },
                            )
                            &&& match item_from_row(edited(before[i].row, text@, bytes.len() as i64)) {
                                Some(item) => result matches Ok(found) && found.view_item() == item,
                                None => result == Err::<ClipboardHistoryItem, ClipboardError>(ClipboardError::CorruptRecord),
                            }
                        },
                    }
                }
            }),
    {
        match validate_id(id) {
            Ok(()) => {},
            Err(error) => {
                return Err(error);
            },
        }
        if text.as_str().is_empty() {
            return Err(ClipboardError::EmptyText);
        }
        let bytes = text.as_str().as_bytes();
        if bytes.len() > MAX_TEXT_BYTES {
            return Err(ClipboardError::TextTooLarge);
        }
        if expected_revision > JS_MAX_SAFE_INTEGER {
            return Err(ClipboardError::NumericRange);
        }
        let byte_size = bytes.len() as i64;
        let hash = sha256_digest(bytes);
        let ghost before = self.table();
        let i = match index_of_id(&self.rows, id) {
            None => {
                proof {
                    assert forall|k: int| 0 <= k < before.len() implies before[k].row.id != id by {
                        assert(before[k].row.id == self.rows@[k].raw.id);
                    }
                    lemma_id_absent(before, id);
                }
                return Err(ClipboardError::NotFound);
            },
            Some(i) => i,
        };
        proof {
            lemma_id_index(before, id, i as int);
            reveal_strlit("text");
            assert("text"@ =~= content_kind_name(ClipboardContentKind::Text));
        }
        if !crate::text::str_equal(self.rows[i].raw.content_type.as_str(), "text") {
            return Err(ClipboardError::NotFound);
        }
        let revision = self.rows[i].raw.content_revision;
        if revision < 0 {
            return Err(ClipboardError::Storage(StorageError::Unavailable));
        }
        if revision as u64 != expected_revision {
            return Err(ClipboardError::RevisionConflict);
        }
        let mut k: usize = 0;
        while k < self.rows.len()
            invariant
                k <= self.rows@.len(),
                i < self.rows@.len(),
                before == self.table(),
                forall|j: int| 0 <= j < k && j != i ==> !same_content(#[trigger] before[j], ClipboardContentKind::Text, hash@),
            decreases self.rows.len() - k,
        {
            if k != i && crate::text::str_equal(self.rows[k].raw.content_type.as_str(), "text") && bytes_equal(
                &self.rows[k].content_hash,
                &hash,
            ) {
                assert(same_content(before[k as int], ClipboardContentKind::Text, hash@));
                return Err(ClipboardError::DuplicateText);
            }
            k += 1;
        }
        let mut row = self.rows.remove(i);
        row.raw.text_content = Some(text);
        row.raw.byte_size = byte_size;
        row.raw.content_revision = revision + 1;
        row.content_hash = hash;
        self.rows.insert(i, row);
        proof {
            let updated = StoredRow { row: edited(before[i as int].row, text@, byte_size), hash: hash@ };
            assert(self.table() =~= before.update(i as int, updated));
            assert forall|j: int| 0 <= j < before.len() && j != i implies #[trigger] before[j].row.id != updated.row.id && !(
                before[j].row.content_type == updated.row.content_type && before[j].hash == updated.hash) by {
                assert(before[j].row.id != before[i as int].row.id || j == i);
                if j < i {
                    assert(before[j].row.id != before[i as int].row.id);
                } else {
                    assert(before[i as int].row.id != before[j].row.id);
                }
                assert(!same_content(before[j], ClipboardContentKind::Text, hash@));
            }
            lemma_update_unique(before, i as int, updated);
            assert forall|j: int| 0 <= j < self.rows@.len() implies #[trigger] below_next(self.rows@[j].raw.id, self.next_id) by {
                assert(self.table()[j].row.id == before[j].row.id);
                assert(before[j].row.id == old(self).rows@[j].raw.id);
            }
            lemma_id_index(self.table(), id, i as int);
        }
        match item_by_id(&self.rows, id) {
            Ok(Some(item)) => Ok(item),
            Ok(None) => Err(ClipboardError::NotFound),
            Err(error) => Err(error),
        }
    }

    /// Deletes the row `id`; `Ok(false)` when there is none. Its image is
    /// removed when no other row refers to it.
    pub fn delete(&mut self, id: i64) -> (result: Result<bool, ClipboardError>)
        requires
            old(self).wf(),
        ensures
            final(self).wf(),
            final(self).next_row_id() == old(self).next_row_id(),
            final(self).preferences() == old(self).preferences(),
            final(self).settings_table() == old(self).settings_table(),
            final(self).observations() == old(self).observations(),
            match (if id > 0 { id_index(old(self).table(), id) } else { None }) {
                None => result == (if id > 0 {
                    Ok::<bool, ClipboardError>(false)
                } else {
                    Err::<bool, ClipboardError>(ClipboardError::NotFound)
                }) && final(self).table() == old(self).table(),
                Some(i) => result == Ok::<bool, ClipboardError>(true) && final(self).table() == old(self).table().remove(i),
            },
    {
        match validate_id(id) {
            Ok(()) => {},
            Err(error) => {
                return Err(error);
            },
        }
        let ghost before = self.table();
        match index_of_id(&self.rows, id) {
            None => {
                proof {
                    assert forall|k: int| 0 <= k < before.len() implies before[k].row.id != id by {
                        assert(before[k].row.id == self.rows@[k].raw.id);
                    }
                    lemma_id_absent(before, id);
                }
                Ok(false)
            },
            Some(i) => {
                proof {
                    lemma_id_index(before, id, i as int);
                }
                let row = self.rows.remove(i);
                proof {
                    assert(self.table() =~= before.remove(i as int));
                    lemma_remove_unique(before, i as int);
                    assert forall|k: int| 0 <= k < self.rows@.len() implies #[trigger] below_next(self.rows@[k].raw.id, self.next_id) by {
                        let k2 = if k < i { k } else { k + 1 };
                        assert(self.rows@[k] == old(self).rows@[k2]);
                    }
                }
                if let Some(reference) = row.raw.file_path {
                    self.cleanup_if_unreferenced(reference.as_str());
                }
                Ok(true)
            },
        }
    }

    /// Deletes every row that is not a favorite and returns how many went.
    #[verifier::spinoff_prover]
    pub fn clear_unfavorite(&mut self) -> (result: Result<u64, ClipboardError>)
        requires
            old(self).wf(),
        ensures
            final(self).wf(),
            final(self).next_row_id() == old(self).next_row_id(),
            final(self).preferences() == old(self).preferences(),
            final(self).settings_table() == old(self).settings_table(),
            final(self).observations() == old(self).observations(),
            final(self).table() == favorites(old(self).table()),
            result == Ok::<u64, ClipboardError>((old(self).table().len() - favorites(old(self).table()).len()) as u64),
            log_extends(old(self).file_calls(), final(self).file_calls()),
            log_since(old(self).file_calls(), final(self).file_calls()) == image_removals(
                favorites(old(self).table()),
                dropped_images(old(self).table()),
            ),
    {
        let ghost before = self.table();
        let mut remaining: Vec<HistoryRow> = Vec::new();
        std::mem::swap(&mut remaining, &mut self.rows);
        let mut images: Vec<String> = Vec::new();
        let total = remaining.len();
        let mut deleted: u64 = 0;
        let mut k: usize = 0;
        while k < total
            invariant
                k <= total,
                total == before.len(),
                remaining@.len() == total - k,
                forall|j: int| 0 <= j < remaining@.len() ==> #[trigger] remaining@[j].stored() == before[j + k],
                stored_rows(self.rows@) == favorites(before.subrange(0, k as int)),
                self.next_id == old(self).next_id,
                self.settings == old(self).settings,
                self.store == old(self).store,
                self.corrupt_history_row_observations == old(self).corrupt_history_row_observations,
                deleted == k - favorites(before.subrange(0, k as int)).len(),
                favorites(before.subrange(0, k as int)).len() <= k,
                self.files.calls() == old(self).files.calls(),
                string_views(images@) == dropped_images(before.subrange(0, k as int)),
            decreases total - k,
        {
            let row = remaining.remove(0);
            assert(row.stored() == before[k as int]);
            let ghost kept = stored_rows(self.rows@);
            assert(before.subrange(0, k + 1).drop_last() =~= before.subrange(0, k as int));
            assert(before.subrange(0, k + 1).last() == before[k as int]);
            if row.raw.is_favorite == 0 {
                deleted = deleted + 1;
                let ghost views = string_views(images@);
                if let Some(reference) = row.raw.file_path {
                    images.push(reference);
                    assert(string_views(images@) =~= views.push(before[k as int].row.file_path->0));
                } else {
                    assert(string_views(images@) =~= views);
                }
            } else {
                self.rows.push(row);
                assert(stored_rows(self.rows@) =~= kept.push(before[k as int]));
                assert(string_views(images@) == dropped_images(before.subrange(0, k + 1)));
            }
            k += 1;
        }
        assert(before.subrange(0, total as int) =~= before);
        proof {
            lemma_filtered_unique(before, 0);
            let after = self.table();
            assert(after == favorites(before));
            assert forall|j: int| 0 <= j < self.rows@.len() implies #[trigger] below_next(self.rows@[j].raw.id, self.next_id) by {
                assert(after[j].row.id == self.rows@[j].raw.id);
                assert(before.contains(favorites(before)[j]));
                let i = choose|i: int| 0 <= i < before.len() && before[i] == after[j];
                assert(before[i].row.id == old(self).rows@[i].raw.id);
                assert(below_next(old(self).rows@[i].raw.id, old(self).next_id));
            }
        }
        self.remove_image_references(images);
        Ok(deleted)
    }

    /// Applies retention at time `now` and then capacity, and returns how
    /// many rows went.
    #[verifier::spinoff_prover]
    pub fn apply_retention_at(&mut self, now: u64) -> (result: Result<u64, ClipboardError>)
        requires
            old(self).wf(),
        ensures
            final(self).wf(),
            final(self).next_row_id() == old(self).next_row_id(),
            final(self).preferences() == old(self).preferences(),
            final(self).settings_table() == old(self).settings_table(),
            final(self).observations() == old(self).observations(),
            log_extends(old(self).file_calls(), final(self).file_calls()),
            match after_retention(
                old(self).table(),
                old(self).preferences().retention_days,
                old(self).preferences().max_items,
                now,
            ) {
                Err(error) => result == Err::<u64, ClipboardError>(error) && final(self).table() == old(self).table()
                    && final(self).file_calls() == old(self).file_calls(),
                Ok(rows) => final(self).table() == rows && result == Ok::<u64, ClipboardError>(
                    (old(self).table().len() - rows.len()) as u64,
                ),
            },
    {
        let ghost before = self.table();
        let mut removed_count: u64 = 0;
        let mut images: Vec<String> = Vec::new();
        match self.settings.retention_days {
            None => {},
            Some(days) => {
                let span: u64 = days as u64 * 86_400_000;
                let cutoff: u64 = if now >= span { now - span } else { 0 };
                if cutoff > i64::MAX as u64 {
                    proof {
                        lemma_log_since_self(self.file_calls());
                    }
                    return Err(ClipboardError::Storage(StorageError::LockPoisoned));
                }
                let cutoff = cutoff as i64;
                let mut remaining: Vec<HistoryRow> = Vec::new();
                std::mem::swap(&mut remaining, &mut self.rows);
                let total = remaining.len();
                let mut k: usize = 0;
                while k < total
                    invariant
                        k <= total,
                        total == before.len(),
                        remaining@.len() == total - k,
                        forall|j: int| 0 <= j < remaining@.len() ==> #[trigger] remaining@[j].stored() == before[j + k],
                        stored_rows(self.rows@) == unexpired(before.subrange(0, k as int), cutoff as int),
                        self.next_id == old(self).next_id,
                        self.settings == old(self).settings,
                        self.store == old(self).store,
                        self.corrupt_history_row_observations == old(self).corrupt_history_row_observations,
                        self.files.calls() == old(self).files.calls(),
                        removed_count == k - unexpired(before.subrange(0, k as int), cutoff as int).len(),
                        unexpired(before.subrange(0, k as int), cutoff as int).len() <= k,
                    decreases total - k,
                {
                    let row = remaining.remove(0);
                    assert(row.stored() == before[k as int]);
                    let ghost kept = stored_rows(self.rows@);
                    assert(before.subrange(0, k + 1).drop_last() =~= before.subrange(0, k as int));
                    assert(before.subrange(0, k + 1).last() == before[k as int]);
                    if row.raw.is_favorite == 0 && row.raw.captured_at_ms < cutoff {
                        removed_count = removed_count + 1;
                        if let Some(reference) = row.raw.file_path {
                            images.push(reference);
                        }
                    } else {
                        self.rows.push(row);
                        assert(stored_rows(self.rows@) =~= kept.push(before[k as int]));
                    }
                    k += 1;
                }
                assert(before.subrange(0, total as int) =~= before);
                proof {
                    lemma_filtered_unique(before, cutoff as int);
                    let after = self.table();
                    assert(after == unexpired(before, cutoff as int));
                    assert forall|j: int| 0 <= j < self.rows@.len() implies #[trigger] below_next(self.rows@[j].raw.id, self.next_id) by {
                        assert(after[j].row.id == self.rows@[j].raw.id);
                        assert(before.contains(unexpired(before, cutoff as int)[j]));
                        let i = choose|i: int| 0 <= i < before.len() && before[i] == after[j];
                        assert(before[i].row.id == old(self).rows@[i].raw.id);
                        assert(below_next(old(self).rows@[i].raw.id, old(self).next_id));
                    }
                }
            },
        }
        let ghost middle = self.table();
        assert(removed_count == before.len() - middle.len());
        let middle_len = self.rows.len();
        let mut evicted = self.evict();
        proof {
            if middle.len() > self.settings.max_items {
                lemma_survivors_len(middle, middle, middle.len() - self.settings.max_items);
            }
        }
        let after_len = self.rows.len();
        removed_count = removed_count + (middle_len - after_len) as u64;
        images.append(&mut evicted);
        self.remove_image_references(images);
        Ok(removed_count)
    }
}

proof fn lemma_survivors_len(all: Seq<StoredRow>, rows: Seq<StoredRow>, excess: int)
    ensures
        survivors(all, rows, excess).len() <= rows.len(),
    decreases rows.len(),
{
    if rows.len() > 0 {
        lemma_survivors_len(all, rows.drop_last(), excess);
    }
}


// ---------------------------------------------------------------------------
// Reading content back.

/// Whether `result` is what writing the row `id` back to the clipboard
/// gives: its text; an image decoded from its managed file (or `Image` when
/// that fails); its file list when every file still exists (or
/// `FilesUnavailable`).
pub open spec fn writes_content(result: Result<ClipboardWriteContent, ClipboardError>, rows: Seq<StoredRow>, id: i64) -> bool {
    if id <= 0 {
        result == Err::<ClipboardWriteContent, ClipboardError>(ClipboardError::NotFound)
    } else {
        match item_with_id(rows, id) {
            Err(error) => result == Err::<ClipboardWriteContent, ClipboardError>(error),
            Ok(None) => result == Err::<ClipboardWriteContent, ClipboardError>(ClipboardError::NotFound),
            Ok(Some(item)) => match item.kind {
                ClipboardContentKind::Text => result matches Ok(ClipboardWriteContent::Text(text)) && item.text_content
                    == Some(text@),
                ClipboardContentKind::Image => result matches Err(ClipboardError::Image(_)) || result matches Ok(
                    ClipboardWriteContent::Image { .. },
                ),
                ClipboardContentKind::Files => {
                    ||| result == Err::<ClipboardWriteContent, ClipboardError>(ClipboardError::FilesUnavailable)
                    ||| valid_path_list(item.file_paths->0) && (result matches Ok(ClipboardWriteContent::Files { paths })
                        && Some(unit_lists(paths@)) == item.file_paths)
                },
            },
        }
    }
}

/// Whether the file-store calls `calls` and `result` are what taking the
/// row `id` of `rows` for writing to the clipboard made and gave: an image
/// is decoded by its reference and the decoding, or its error as an image
/// error, passed on; a file list is checked path by path, as
/// [`file_check_follows`] says, and written exactly when the check passes;
/// text, and a missing or corrupt row, make no call.
pub open spec fn content_follows(
    rows: Seq<StoredRow>,
    id: i64,
    calls: Seq<FileCall>,
    result: Result<ClipboardWriteContent, ClipboardError>,
) -> bool {
    if id <= 0 {
        calls.len() == 0
    } else {
        match item_with_id(rows, id) {
            Ok(Some(item)) => match item.kind {
                ClipboardContentKind::Text => calls.len() == 0,
                ClipboardContentKind::Image => match item.file_path {
                    None => calls.len() == 0 && result == Err::<ClipboardWriteContent, ClipboardError>(
                        ClipboardError::CorruptRecord,
                    ),
                    Some(reference) => calls.len() == 1 && match calls[0] {
                        FileCall::DecodeImage(asked, decoded) => asked == reference && result == match decoded {
                            Ok(image) => Ok::<ClipboardWriteContent, ClipboardError>(
                                ClipboardWriteContent::Image { width: image.width, height: image.height, rgba: image.rgba },
                            ),
                            Err(error) => Err(ClipboardError::Image(error)),
                        },
                        _ => false,
                    },
                },
                ClipboardContentKind::Files => match item.file_paths {
                    None => calls.len() == 0 && result == Err::<ClipboardWriteContent, ClipboardError>(
                        ClipboardError::CorruptRecord,
                    ),
                    Some(paths) => exists|check: Result<u64, ClipboardError>|
                        #[trigger] file_check_follows(paths, true, calls, check) && (result is Ok <==> check is Ok),
                },
            },
            _ => calls.len() == 0,
        }
    }
}

/// The id of the newest valid item, for writing the latest capture back.
pub open spec fn latest_id(rows: Seq<StoredRow>) -> Result<i64, ClipboardError> {
    let items = newest_first(matching_items(rows, false, None));
    if items.len() > JS_MAX_SAFE_INTEGER {
        Err(ClipboardError::NumericRange)
    } else if items.len() == 0 {
        Err(ClipboardError::NoLatestItem)
    } else {
        Ok(items[0].id)
    }
}

/// Whether `after` is `before` after retention at some time, or unchanged.
pub open spec fn retention_applied(before: Seq<StoredRow>, after: Seq<StoredRow>, settings: SettingsModel) -> bool {
    ||| after == before
    ||| exists|now: u64|
        #[trigger] after_retention(before, settings.retention_days, settings.max_items, now) == Ok::<
            Seq<StoredRow>,
            ClipboardError,
        >(after)
}

/// What a history query answers when the clock reads `now`: retention runs
/// first (its error ends the query with the table unchanged), then the
/// query is checked and answered on the retained rows.
pub open spec fn history_at(
    before: Seq<StoredRow>,
    settings: SettingsModel,
    query: ClipboardHistoryQuery,
    now: u64,
    result: Result<ClipboardHistoryPage, ClipboardError>,
    after: Seq<StoredRow>,
) -> bool {
    match after_retention(before, settings.retention_days, settings.max_items, now) {
        Err(error) => result == Err::<ClipboardHistoryPage, ClipboardError>(error) && after == before,
        Ok(rows) => after == rows && if !(1 <= query.limit <= 100) {
            result == Err::<ClipboardHistoryPage, ClipboardError>(ClipboardError::InvalidLimit)
        } else if opt_text(query.search) matches Some(needle) && needle.len() > 256 {
            result == Err::<ClipboardHistoryPage, ClipboardError>(ClipboardError::SearchTooLong)
        } else {
            answers(result, rows, query)
        },
    }
}

impl<F: ClipboardFiles> ClipboardService<F> {
    /// The content to put on the clipboard for the row `id`.
    pub fn content_for_write(&mut self, id: i64) -> (result: Result<ClipboardWriteContent, ClipboardError>)
        requires
            old(self).wf(),
        ensures
            final(self).wf(),
            final(self).table() == old(self).table(),
            final(self).next_row_id() == old(self).next_row_id(),
            final(self).preferences() == old(self).preferences(),
            final(self).settings_table() == old(self).settings_table(),
            final(self).observations() == old(self).observations(),
            writes_content(result, old(self).table(), id),
            log_extends(old(self).file_calls(), final(self).file_calls()),
            content_follows(old(self).table(), id, log_since(old(self).file_calls(), final(self).file_calls()), result),
    {
        let ghost start = self.file_calls();
        proof {
            lemma_log_since_self(start);
        }
        match validate_id(id) {
            Ok(()) => {},
            Err(error) => {
                return Err(error);
            },
        }
        let item = match item_by_id(&self.rows, id) {
            Ok(Some(item)) => item,
            Ok(None) => {
                return Err(ClipboardError::NotFound);
            },
            Err(error) => {
                return Err(error);
            },
        };
        match item.kind {
            ClipboardContentKind::Text => match item.text_content {
                Some(text) => Ok(ClipboardWriteContent::Text(text)),
                None => Err(ClipboardError::CorruptRecord),
            },
            ClipboardContentKind::Image => {
                let reference = match &item.file_path {
                    Some(reference) => reference,
                    None => {
                        return Err(ClipboardError::CorruptRecord);
                    },
                };
                let decoded = self.files.decode_image(reference.as_str());
                proof {
                    lemma_log_push(start, FileCall::DecodeImage(reference@, decoded));
                }
                match decoded {
                    Ok(image) => Ok(ClipboardWriteContent::Image { width: image.width, height: image.height, rgba: image.rgba }),
                    Err(error) => Err(ClipboardError::Image(error)),
                }
            },
            ClipboardContentKind::Files => {
                let paths = match item.file_paths {
                    Some(paths) => paths,
                    None => {
                        return Err(ClipboardError::CorruptRecord);
                    },
                };
                let checked = self.validate_file_paths(&paths, true);
                proof {
                    assert(file_check_follows(unit_lists(paths@), true, log_since(start, self.file_calls()), checked));
                }
                match checked {
                    Ok(_) => Ok(ClipboardWriteContent::Files { paths }),
                    Err(error) => Err(error),
                }
            },
        }
    }

    /// Answers a history query after applying retention at the current time.
    pub fn history(&mut self, query: ClipboardHistoryQuery) -> (result: Result<ClipboardHistoryPage, ClipboardError>)
        requires
            old(self).wf(),
        ensures
            final(self).wf(),
            final(self).next_row_id() == old(self).next_row_id(),
            final(self).preferences() == old(self).preferences(),
            final(self).settings_table() == old(self).settings_table(),
            retention_applied(old(self).table(), final(self).table(), old(self).preferences()),
            log_extends(old(self).file_calls(), final(self).file_calls()),
            exists|now: u64|
                #[trigger] history_at(old(self).table(), old(self).preferences(), query, now, result, final(self).table())
                    && history_observed(
                    old(self).table(),
                    old(self).preferences(),
                    query,
                    now,
                    old(self).observations(),
                    final(self).observations(),
                ),
    {
        let now = current_time_ms();
        match self.apply_retention_at(now) {
            Ok(_) => {},
            Err(error) => {
                let result = Err(error);
                assert(history_at(old(self).table(), old(self).preferences(), query, now, result, self.table()));
                assert(history_observed(old(self).table(), old(self).preferences(), query, now, old(self).observations(), self.observations()));
                return result;
            },
        }
        let ghost after = self.table();
        assert(after_retention(old(self).table(), old(self).preferences().retention_days, old(self).preferences().max_items, now)
            == Ok::<Seq<StoredRow>, ClipboardError>(after));
        let result = self.query_history(query);
        assert(history_at(old(self).table(), old(self).preferences(), query, now, result, self.table()));
        assert(history_observed(old(self).table(), old(self).preferences(), query, now, old(self).observations(), self.observations()));
        result
    }

    /// The content of the newest history item, for writing it back.
    pub fn latest_content_for_write(&mut self) -> (result: Result<ClipboardWriteContent, ClipboardError>)
        requires
            old(self).wf(),
        ensures
            final(self).wf(),
            final(self).next_row_id() == old(self).next_row_id(),
            final(self).preferences() == old(self).preferences(),
            final(self).settings_table() == old(self).settings_table(),
            retention_applied(old(self).table(), final(self).table(), old(self).preferences()),
            exists|now: u64|
                match #[trigger] after_retention(
                    old(self).table(),
                    old(self).preferences().retention_days,
                    old(self).preferences().max_items,
                    now,
                ) {
                    Err(error) => result == Err::<ClipboardWriteContent, ClipboardError>(error) && final(self).table()
                        == old(self).table(),
                    Ok(rows) => final(self).table() == rows && match latest_id(rows) {
                        Err(error) => result == Err::<ClipboardWriteContent, ClipboardError>(error),
                        Ok(id) => writes_content(result, rows, id) && exists|retained: Seq<FileCall>|
                            #[trigger] log_extends(old(self).file_calls(), retained) && log_extends(
                                retained,
                                final(self).file_calls(),
                            ) && content_follows(rows, id, log_since(retained, final(self).file_calls()), result),
                    },
                },
            log_extends(old(self).file_calls(), final(self).file_calls()),
    {
        let query = ClipboardHistoryQuery { favorites_only: false, search: None, limit: 1 };
        let answer = self.history(query);
        let ghost retained = self.file_calls();
        let ghost now = choose|now: u64|
            #[trigger] history_at(old(self).table(), old(self).preferences(), query, now, answer, self.table());
        let page = match answer {
            Ok(page) => page,
            Err(error) => {
                return Err(error);
            },
        };
        let ghost items = newest_first(matching_items(self.table(), false, None));
        assert(effective_search(opt_text(None::<String>)) == None::<Seq<char>>);
        assert(item_views(page.items@) == items.take(if 1 < items.len() { 1 } else { items.len() as int }));
        if page.items.len() == 0 {
            return Err(ClipboardError::NoLatestItem);
        }
        let id = page.items[0].id;
        assert(item_views(page.items@)[0] == items[0]);
        let content = self.content_for_write(id);
        proof {
            crate::listener::lemma_log_since_split(old(self).file_calls(), retained, self.file_calls());
            assert(log_extends(old(self).file_calls(), retained));
        }
        content
    }

    /// The encoded bytes of the image row `id`.
    pub fn image_bytes(&mut self, id: i64) -> (result: Result<Vec<u8>, ClipboardError>)
        requires
            old(self).wf(),
        ensures
            final(self).wf(),
            final(self).table() == old(self).table(),
            final(self).next_row_id() == old(self).next_row_id(),
            final(self).preferences() == old(self).preferences(),
            final(self).settings_table() == old(self).settings_table(),
            final(self).observations() == old(self).observations(),
            log_extends(old(self).file_calls(), final(self).file_calls()),
            image_bytes_follow(
                old(self).table(),
                id,
                log_since(old(self).file_calls(), final(self).file_calls()),
                result,
            ),
    {
        let ghost start = self.file_calls();
        proof {
            lemma_log_since_self(start);
        }
        match validate_id(id) {
            Ok(()) => {},
            Err(error) => {
                return Err(error);
            },
        }
        let item = match item_by_id(&self.rows, id) {
            Ok(Some(item)) => item,
            Ok(None) => {
                return Err(ClipboardError::NotFound);
            },
            Err(error) => {
                return Err(error);
            },
        };
        if item.kind != ClipboardContentKind::Image {
            return Err(ClipboardError::NotFound);
        }
        let reference = match &item.file_path {
            Some(reference) => reference,
            None => {
                return Err(ClipboardError::CorruptRecord);
            },
        };
        let read = self.files.read_image(reference.as_str());
        proof {
            lemma_log_push(start, FileCall::ReadImage(reference@, read));
        }
        match read {
            Ok(bytes) => Ok(bytes),
            Err(error) => Err(ClipboardError::Image(error)),
        }
    }

    /// The bytes of the source icon cached for the row `id`.
    pub fn source_icon_bytes(&mut self, id: i64) -> (result: Result<Vec<u8>, ClipboardError>)
        requires
            old(self).wf(),
        ensures
            final(self).wf(),
            final(self).table() == old(self).table(),
            final(self).next_row_id() == old(self).next_row_id(),
            final(self).preferences() == old(self).preferences(),
            final(self).settings_table() == old(self).settings_table(),
            final(self).observations() == old(self).observations(),
            log_extends(old(self).file_calls(), final(self).file_calls()),
            source_icon_bytes_follow(
                old(self).table(),
                id,
                log_since(old(self).file_calls(), final(self).file_calls()),
                result,
            ),
    {
        let ghost start = self.file_calls();
        proof {
            lemma_log_since_self(start);
        }
        match validate_id(id) {
            Ok(()) => {},
            Err(error) => {
                return Err(error);
            },
        }
        let item = match item_by_id(&self.rows, id) {
            Ok(Some(item)) => item,
            Ok(None) => {
                return Err(ClipboardError::NotFound);
            },
            Err(error) => {
                return Err(error);
            },
        };
        let reference = match &item.source_icon_path {
            Some(reference) => reference,
            None => {
                return Err(ClipboardError::SourceIcon);
            },
        };
        let read = self.files.read_source_icon(reference.as_str());
        proof {
            lemma_log_push(start, FileCall::ReadSourceIcon(reference@, read));
        }
        match read {
            Some(bytes) => Ok(bytes),
            None => Err(ClipboardError::SourceIcon),
        }
    }

    /// Applies retention and capacity at the current time, as at startup;
    /// returns how many rows went.
    pub fn reconcile_retention_and_capacity(&mut self) -> (result: Result<u64, ClipboardError>)
        requires
            old(self).wf(),
        ensures
            final(self).wf(),
            final(self).next_row_id() == old(self).next_row_id(),
            final(self).preferences() == old(self).preferences(),
            final(self).settings_table() == old(self).settings_table(),
            final(self).observations() == old(self).observations(),
            exists|now: u64|
                match #[trigger] after_retention(
                    old(self).table(),
                    old(self).preferences().retention_days,
                    old(self).preferences().max_items,
                    now,
                ) {
                    Err(error) => result == Err::<u64, ClipboardError>(error) && final(self).table() == old(self).table(),
                    Ok(rows) => final(self).table() == rows && result == Ok::<u64, ClipboardError>(
                        (old(self).table().len() - rows.len()) as u64,
                    ),
                },
    {
        let now = current_time_ms();
        let result = self.apply_retention_at(now);
        assert(match after_retention(
            old(self).table(),
            old(self).preferences().retention_days,
            old(self).preferences().max_items,
            now,
        ) {
            Err(error) => result == Err::<u64, ClipboardError>(error) && self.table() == old(self).table(),
            Ok(rows) => self.table() == rows && result == Ok::<u64, ClipboardError>(
                (old(self).table().len() - rows.len()) as u64,
            ),
        });
        result
    }

    /// Validates and saves new preferences, puts them in force, and applies
    /// retention and capacity at the current time; returns how many rows
    /// went.
    pub fn update_settings(&mut self, settings: ClipboardSettings) -> (result: Result<u64, ClipboardError>)
        requires
            old(self).wf(),
        ensures
            final(self).wf(),
            final(self).next_row_id() == old(self).next_row_id(),
            final(self).observations() == old(self).observations(),
            match settings_error(settings.model()) {
                Some(error) => result == Err::<u64, ClipboardError>(ClipboardError::Settings(error))
                    && final(self).table() == old(self).table() && final(self).preferences() == old(self).preferences()
                    && final(self).settings_table() == old(self).settings_table(),
                None => {
                    &&& final(self).preferences() == settings.model()
                    &&& stores_preferences(old(self).settings_table(), final(self).settings_table(), settings.model())
                    &&& exists|now: u64|
                        match #[trigger] after_retention(
                            old(self).table(),
                            settings.retention_days,
                            settings.max_items,
                            now,
                        ) {
                            Err(error) => result == Err::<u64, ClipboardError>(error) && final(self).table() == old(
                                self).table(),
                            Ok(rows) => final(self).table() == rows && result == Ok::<u64, ClipboardError>(
                                (old(self).table().len() - rows.len()) as u64,
                            ),
                        }
                },
            },
    {
        match crate::settings::validate(&settings) {
            Ok(()) => {},
            Err(error) => {
                return Err(ClipboardError::Settings(error));
            },
        }
        match save(&mut self.store, &settings) {
            Ok(()) => {},
            Err(error) => {
                return Err(ClipboardError::Settings(error));
            },
        }
        self.settings = settings;
        self.reconcile_retention_and_capacity()
    }
}


// ---------------------------------------------------------------------------
// Laws of eviction.

/// What eviction keeps: every row that is not a victim, and only such rows.
proof fn lemma_survivors_members(all: Seq<StoredRow>, rows: Seq<StoredRow>, excess: int)
    ensures
        forall|i: int| 0 <= i < rows.len() && !is_victim(all, rows[i].row, excess) ==> survivors(all, rows, excess).contains(
            #[trigger] rows[i],
        ),
        forall|k: int| 0 <= k < survivors(all, rows, excess).len() ==> !is_victim(
            all,
            #[trigger] survivors(all, rows, excess)[k].row,
            excess,
        ),
    decreases rows.len(),
{
    if rows.len() > 0 {
        let front = rows.drop_last();
        lemma_survivors_members(all, front, excess);
        let kept = survivors(all, front, excess);
        assert forall|i: int| 0 <= i < rows.len() && !is_victim(all, rows[i].row, excess) implies survivors(
            all,
            rows,
            excess,
        ).contains(#[trigger] rows[i]) by {
            if i < front.len() {
                assert(front[i] == rows[i]);
                assert(kept.contains(front[i]));
                let k = choose|k: int| 0 <= k < kept.len() && kept[k] == front[i];
                if !is_victim(all, rows.last().row, excess) {
                    assert(kept.push(rows.last())[k] == rows[i]);
                }
            } else {
                assert(kept.push(rows.last())[kept.len() as int] == rows[i]);
            }
        }
        assert forall|k: int| 0 <= k < survivors(all, rows, excess).len() implies !is_victim(
            all,
            #[trigger] survivors(all, rows, excess)[k].row,
            excess,
        ) by {
            if k < kept.len() {
                assert(survivors(all, rows, excess)[k] == kept[k]);
            }
        }
    }
}

/// How many evictable rows of `rows` hold exactly `row`.
pub open spec fn evictable_copies(rows: Seq<StoredRow>, row: RawRow) -> nat
    decreases rows.len(),
{
    if rows.len() == 0 {
        0
    } else {
        evictable_copies(rows.drop_last(), row) + if evictable(rows.last().row) && rows.last().row == row { 1nat } else { 0nat }
    }
}

proof fn lemma_older_count_grows(rows: Seq<StoredRow>, a: RawRow, b: RawRow)
    requires
        older(a, b),
    ensures
        older_evictable(rows, b) >= older_evictable(rows, a) + evictable_copies(rows, a),
    decreases rows.len(),
{
    if rows.len() > 0 {
        lemma_older_count_grows(rows.drop_last(), a, b);
    }
}

proof fn lemma_copies_of_member(rows: Seq<StoredRow>, i: int)
    requires
        0 <= i < rows.len(),
        evictable(rows[i].row),
    ensures
        evictable_copies(rows, rows[i].row) >= 1,
    decreases rows.len(),
{
    if i < rows.len() - 1 {
        assert(rows.drop_last()[i] == rows[i]);
        lemma_copies_of_member(rows.drop_last(), i);
    }
}

/// Eviction never removes a favorite: every row that is not evictable is
/// still in the table after trimming to any capacity.
pub proof fn lemma_eviction_keeps_favorites(rows: Seq<StoredRow>, capacity: u32, i: int)
    requires
        0 <= i < rows.len(),
        rows[i].row.is_favorite != 0,
    ensures
        after_eviction(rows, capacity).contains(rows[i]),
{
    if rows.len() > capacity {
        lemma_survivors_members(rows, rows, rows.len() - capacity);
    }
}

/// Eviction removes the oldest non-favorites first: a row that eviction
/// removed was captured before every non-favorite it kept (ties broken by
/// id).
pub proof fn lemma_eviction_removes_oldest(rows: Seq<StoredRow>, capacity: u32, i: int, j: int)
    requires
        rows_unique(rows),
        0 <= i < rows.len(),
        0 <= j < rows.len(),
        !after_eviction(rows, capacity).contains(rows[i]),
        after_eviction(rows, capacity).contains(rows[j]),
        evictable(rows[j].row),
    ensures
        evictable(rows[i].row),
        older(rows[i].row, rows[j].row),
{
    let excess = rows.len() - capacity;
    assert(rows.len() > capacity);
    lemma_survivors_members(rows, rows, excess);
    let kept = survivors(rows, rows, excess);
    assert(is_victim(rows, rows[i].row, excess));
    let k = choose|k: int| 0 <= k < kept.len() && kept[k] == rows[j];
    assert(!is_victim(rows, kept[k].row, excess));
    assert(i != j);
    if !older(rows[i].row, rows[j].row) {
        if i < j {
            assert(rows[i].row.id != rows[j].row.id);
        } else {
            assert(rows[j].row.id != rows[i].row.id);
        }
        assert(older(rows[j].row, rows[i].row));
        lemma_older_count_grows(rows, rows[j].row, rows[i].row);
        lemma_copies_of_member(rows, j);
    }
}

/// Every row eviction keeps was in the table.
proof fn lemma_survivors_subset(all: Seq<StoredRow>, rows: Seq<StoredRow>, excess: int)
    ensures
        forall|k: int|
            0 <= k < survivors(all, rows, excess).len() ==> rows.contains(#[trigger] survivors(all, rows, excess)[k]),
    decreases rows.len(),
{
    if rows.len() > 0 {
        let front = rows.drop_last();
        lemma_survivors_subset(all, front, excess);
        let kept = survivors(all, front, excess);
        assert forall|k: int| 0 <= k < survivors(all, rows, excess).len() implies rows.contains(
            #[trigger] survivors(all, rows, excess)[k],
        ) by {
            if k < kept.len() {
                assert(front.contains(kept[k]));
                let j = choose|j: int| 0 <= j < front.len() && front[j] == kept[k];
                assert(rows[j] == front[j]);
            } else {
                assert(survivors(all, rows, excess)[k] == rows.last());
                assert(rows[rows.len() - 1] == rows.last());
            }
        }
    }
}

/// Every row retention keeps is a favorite or was captured at or after the
/// cutoff.
proof fn lemma_unexpired_recent(rows: Seq<StoredRow>, cutoff: int)
    ensures
        forall|k: int|
            0 <= k < unexpired(rows, cutoff).len() ==> (#[trigger] unexpired(rows, cutoff)[k]).row.is_favorite != 0
                || unexpired(rows, cutoff)[k].row.captured_at_ms >= cutoff,
    decreases rows.len(),
{
    if rows.len() > 0 {
        lemma_unexpired_recent(rows.drop_last(), cutoff);
    }
}

/// The retention cutoff for a period of `days` at `now`, in milliseconds
/// since the epoch.
pub open spec fn retention_cutoff(days: u16, now: u64) -> int {
    if now >= days * 86_400_000 {
        now - days * 86_400_000
    } else {
        0
    }
}

/// After retention with a period of `days` at `now`, and trimming to any
/// capacity, every row left is a favorite or was captured at or after the
/// retention cutoff.
pub proof fn lemma_retention_keeps_recent_or_favorite(rows: Seq<StoredRow>, days: u16, capacity: u32, now: u64, k: int)
    ensures
        after_retention(rows, Some(days), capacity, now) matches Ok(kept) ==> (0 <= k < kept.len() ==> (
        kept[k].row.is_favorite != 0 || kept[k].row.captured_at_ms >= retention_cutoff(days, now))),
{
    let cutoff = retention_cutoff(days, now);
    let fresh = unexpired(rows, cutoff);
    lemma_unexpired_recent(rows, cutoff);
    if let Ok(kept) = after_retention(rows, Some(days), capacity, now) {
        if 0 <= k < kept.len() {
            if fresh.len() > capacity {
                lemma_survivors_subset(fresh, fresh, fresh.len() - capacity);
                assert(fresh.contains(kept[k]));
                let j = choose|j: int| 0 <= j < fresh.len() && fresh[j] == kept[k];
                assert(fresh[j] == kept[k]);
            } else {
                assert(kept[k] == fresh[k]);
            }
        }
    }
}

/// Every item that matches comes from a row of the table.
proof fn lemma_matching_items_from_rows(rows: Seq<StoredRow>, favorites_only: bool, search: Option<Seq<char>>, k: int)
    requires
        0 <= k < matching_items(rows, favorites_only, search).len(),
    ensures
        exists|i: int|
            0 <= i < rows.len() && #[trigger] item_from_row(rows[i].row) == Some(
                matching_items(rows, favorites_only, search)[k],
            ),
    decreases rows.len(),
{
    let front = matching_items(rows.drop_last(), favorites_only, search);
    if k < front.len() {
        lemma_matching_items_from_rows(rows.drop_last(), favorites_only, search, k);
        let i = choose|i: int|
            0 <= i < rows.drop_last().len() && #[trigger] item_from_row(rows.drop_last()[i].row) == Some(front[k]);
        assert(rows[i] == rows.drop_last()[i]);
    } else {
        assert(item_from_row(rows[rows.len() - 1].row) == Some(matching_items(rows, favorites_only, search)[k]));
    }
}

/// A history page answered after retention with a period of `days` at
/// `now` shows only favorites and items captured at or after the retention
/// cutoff.
pub proof fn lemma_history_page_recent_or_favorite(
    before: Seq<StoredRow>,
    settings: SettingsModel,
    query: ClipboardHistoryQuery,
    now: u64,
    page: ClipboardHistoryPage,
    after: Seq<StoredRow>,
    days: u16,
    k: int,
)
    requires
        history_at(before, settings, query, now, Ok(page), after),
        settings.retention_days == Some(days),
        0 <= k < page.items@.len(),
    ensures
        page.items@[k].view_item().is_favorite || page.items@[k].view_item().captured_at_ms >= retention_cutoff(
            days,
            now,
        ),
{
    broadcast use vstd::seq_lib::group_to_multiset_ensures;

    let rows = after_retention(before, settings.retention_days, settings.max_items, now)->Ok_0;
    let matching = matching_items(rows, query.favorites_only, effective_search(opt_text(query.search)));
    let items = newest_first(matching);
    let n = if query.limit < items.len() { query.limit as int } else { items.len() as int };
    assert(item_views(page.items@) == items.take(n));
    let item = item_views(page.items@)[k];
    assert(item == page.items@[k].view_item());
    assert(item == items[k]);
    lemma_newest_first_sorted(matching);
    assert(items.to_multiset().count(item) > 0);
    assert(matching.contains(item));
    let m = choose|m: int| 0 <= m < matching.len() && matching[m] == item;
    lemma_matching_items_from_rows(rows, query.favorites_only, effective_search(opt_text(query.search)), m);
    let i = choose|i: int| 0 <= i < rows.len() && #[trigger] item_from_row(rows[i].row) == Some(matching[m]);
    lemma_retention_keeps_recent_or_favorite(before, days, settings.max_items, now, i);
}

/// How many rows of `rows` older than `x` eviction of `excess` rows from
/// `all` removes.
spec fn victims_older(all: Seq<StoredRow>, rows: Seq<StoredRow>, x: RawRow, excess: int) -> nat
    decreases rows.len(),
{
    if rows.len() == 0 {
        0
    } else {
        victims_older(all, rows.drop_last(), x, excess) + if is_victim(all, rows.last().row, excess) && older(
            rows.last().row,
            x,
        ) {
            1nat
        } else {
            0nat
        }
    }
}

/// How many rows of `rows` eviction of `excess` rows from `all` removes.
spec fn victim_count(all: Seq<StoredRow>, rows: Seq<StoredRow>, excess: int) -> nat
    decreases rows.len(),
{
    if rows.len() == 0 {
        0
    } else {
        victim_count(all, rows.drop_last(), excess) + if is_victim(all, rows.last().row, excess) {
            1nat
        } else {
            0nat
        }
    }
}

/// Eviction keeps every row it does not remove.
proof fn lemma_survivors_count(all: Seq<StoredRow>, rows: Seq<StoredRow>, excess: int)
    ensures
        survivors(all, rows, excess).len() + victim_count(all, rows, excess) == rows.len(),
    decreases rows.len(),
{
    if rows.len() > 0 {
        lemma_survivors_count(all, rows.drop_last(), excess);
    }
}

/// The removed rows older than `x` are among the removed rows.
proof fn lemma_victims_older_bounded(all: Seq<StoredRow>, rows: Seq<StoredRow>, x: RawRow, excess: int)
    ensures
        victims_older(all, rows, x, excess) <= victim_count(all, rows, excess),
    decreases rows.len(),
{
    if rows.len() > 0 {
        lemma_victims_older_bounded(all, rows.drop_last(), x, excess);
    }
}

/// With no evictable row older than `x`, none of the rows is one.
proof fn lemma_none_older(rows: Seq<StoredRow>, x: RawRow)
    requires
        older_evictable(rows, x) == 0,
    ensures
        forall|i: int| 0 <= i < rows.len() ==> !(evictable((#[trigger] rows[i]).row) && older(rows[i].row, x)),
    decreases rows.len(),
{
    if rows.len() > 0 {
        lemma_none_older(rows.drop_last(), x);
        assert forall|i: int| 0 <= i < rows.len() implies !(evictable((#[trigger] rows[i]).row) && older(rows[i].row, x)) by {
            if i < rows.len() - 1 {
                assert(rows[i] == rows.drop_last()[i]);
            }
        }
    }
}

/// The youngest evictable row of `rows` that is older than `x`.
proof fn lemma_youngest_older(rows: Seq<StoredRow>, x: RawRow) -> (j: int)
    requires
        older_evictable(rows, x) > 0,
    ensures
        0 <= j < rows.len(),
        evictable(rows[j].row),
        older(rows[j].row, x),
        forall|i: int|
            0 <= i < rows.len() && evictable(rows[i].row) && older(rows[i].row, x) ==> !older(
                rows[j].row,
                (#[trigger] rows[i]).row,
            ),
    decreases rows.len(),
{
    let front = rows.drop_last();
    let last = rows.last();
    assert(rows[rows.len() - 1] == last);
    if older_evictable(front, x) == 0 {
        lemma_none_older(front, x);
        assert forall|i: int|
            0 <= i < rows.len() && evictable(rows[i].row) && older(rows[i].row, x) implies !older(
            last.row,
            (#[trigger] rows[i]).row,
        ) by {
            if i < rows.len() - 1 {
                assert(rows[i] == front[i]);
            }
        }
        (rows.len() - 1) as int
    } else {
        let b = lemma_youngest_older(front, x);
        assert(rows[b] == front[b]);
        if evictable(last.row) && older(last.row, x) && older(front[b].row, last.row) {
            assert forall|i: int|
                0 <= i < rows.len() && evictable(rows[i].row) && older(rows[i].row, x) implies !older(
                last.row,
                (#[trigger] rows[i]).row,
            ) by {
                if i < rows.len() - 1 {
                    assert(rows[i] == front[i]);
                    assert(!older(front[b].row, front[i].row));
                }
            }
            (rows.len() - 1) as int
        } else {
            assert forall|i: int|
                0 <= i < rows.len() && evictable(rows[i].row) && older(rows[i].row, x) implies !older(
                rows[b].row,
                (#[trigger] rows[i]).row,
            ) by {
                if i < rows.len() - 1 {
                    assert(rows[i] == front[i]);
                }
            }
            b
        }
    }
}

/// Counting the rows older than `x` in the first `n` rows of a table with
/// distinct ids, where row `j` is the youngest evictable one older than
/// `x`: they are those older than row `j`, and row `j` itself.
proof fn lemma_rank_step(all: Seq<StoredRow>, n: int, x: RawRow, j: int, excess: int)
    requires
        rows_unique(all),
        0 <= n <= all.len(),
        0 <= j < all.len(),
        evictable(all[j].row),
        older(all[j].row, x),
        forall|i: int|
            0 <= i < all.len() && evictable(all[i].row) && older(all[i].row, x) ==> !older(
                all[j].row,
                (#[trigger] all[i]).row,
            ),
    ensures
        older_evictable(all.take(n), x) == older_evictable(all.take(n), all[j].row) + if j < n {
            1nat
        } else {
            0nat
        },
        victims_older(all, all.take(n), x, excess) == victims_older(all, all.take(n), all[j].row, excess) + if j
            < n && is_victim(all, all[j].row, excess) {
            1nat
        } else {
            0nat
        },
    decreases n,
{
    if n > 0 {
        lemma_rank_step(all, n - 1, x, j, excess);
        assert(all.take(n).drop_last() =~= all.take(n - 1));
        let e = all[n - 1];
        assert(all.take(n).last() == e);
        if n - 1 != j {
            if n - 1 < j {
                assert(all[n - 1].row.id != all[j].row.id);
            } else {
                assert(all[j].row.id != all[n - 1].row.id);
            }
            if evictable(e.row) && older(e.row, x) {
                assert(!older(all[j].row, all[n - 1].row));
            }
            if older(e.row, all[j].row) {
                assert(older(e.row, x));
            }
        }
    }
}

/// Eviction of `excess` rows removes at least as many rows older than `x`
/// as there are evictable rows older than `x`, up to `excess`.
proof fn lemma_victims_below(all: Seq<StoredRow>, x: RawRow, excess: int)
    requires
        rows_unique(all),
    ensures
        victims_older(all, all, x, excess) >= if older_evictable(all, x) < excess {
            older_evictable(all, x) as int
        } else {
            excess
        },
    decreases older_evictable(all, x),
{
    if older_evictable(all, x) > 0 {
        let j = lemma_youngest_older(all, x);
        lemma_rank_step(all, all.len() as int, x, j, excess);
        assert(all.take(all.len() as int) =~= all);
        lemma_victims_below(all, all[j].row, excess);
    }
}

/// Trimming a table with distinct ids to `capacity` leaves at most
/// `capacity` rows, unless every row left is a favorite.
pub proof fn lemma_eviction_bounds_rows(rows: Seq<StoredRow>, capacity: u32)
    requires
        rows_unique(rows),
    ensures
        after_eviction(rows, capacity).len() <= capacity || forall|k: int|
            0 <= k < after_eviction(rows, capacity).len() ==> !evictable(
                (#[trigger] after_eviction(rows, capacity)[k]).row,
            ),
{
    if rows.len() > capacity {
        let excess = rows.len() - capacity;
        let kept = survivors(rows, rows, excess);
        if exists|k: int| 0 <= k < kept.len() && evictable((#[trigger] kept[k]).row) {
            let k = choose|k: int| 0 <= k < kept.len() && evictable((#[trigger] kept[k]).row);
            lemma_survivors_members(rows, rows, excess);
            assert(!is_victim(rows, kept[k].row, excess));
            lemma_victims_below(rows, kept[k].row, excess);
            lemma_victims_older_bounded(rows, rows, kept[k].row, excess);
            lemma_survivors_count(rows, rows, excess);
        }
    }
}

/// After retention and trimming to `capacity`, a table with distinct rows
/// holds at most `capacity` rows, unless every row left is a favorite.
pub proof fn lemma_retention_bounds_rows(rows: Seq<StoredRow>, days: Option<u16>, capacity: u32, now: u64)
    requires
        rows_unique(rows),
    ensures
        after_retention(rows, days, capacity, now) matches Ok(kept) ==> (kept.len() <= capacity || forall|k: int|
            0 <= k < kept.len() ==> !evictable((#[trigger] kept[k]).row)),
{
    match days {
        None => {
            lemma_eviction_bounds_rows(rows, capacity);
        },
        Some(d) => {
            let cutoff = if now >= d * 86_400_000 { now - d * 86_400_000 } else { 0 };
            lemma_filtered_unique(rows, cutoff);
            lemma_eviction_bounds_rows(unexpired(rows, cutoff), capacity);
        },
    }
}

/// How many rows of `rows` are not favorites.
spec fn evictable_count(rows: Seq<StoredRow>) -> nat
    decreases rows.len(),
{
    if rows.len() == 0 {
        0
    } else {
        evictable_count(rows.drop_last()) + if evictable(rows.last().row) {
            1nat
        } else {
            0nat
        }
    }
}

/// The favorites and the other rows make up the table.
proof fn lemma_favorites_split(rows: Seq<StoredRow>)
    ensures
        favorites(rows).len() + evictable_count(rows) == rows.len(),
    decreases rows.len(),
{
    if rows.len() > 0 {
        lemma_favorites_split(rows.drop_last());
    }
}

/// When eviction removes every row of `rows` that is not a favorite, it
/// removes exactly those.
proof fn lemma_all_evictable_removed(all: Seq<StoredRow>, rows: Seq<StoredRow>, excess: int)
    requires
        forall|i: int| 0 <= i < rows.len() && evictable(rows[i].row) ==> is_victim(all, (#[trigger] rows[i]).row, excess),
    ensures
        victim_count(all, rows, excess) == evictable_count(rows),
    decreases rows.len(),
{
    if rows.len() > 0 {
        let front = rows.drop_last();
        assert forall|i: int| 0 <= i < front.len() && evictable(front[i].row) implies is_victim(
            all,
            (#[trigger] front[i]).row,
            excess,
        ) by {
            assert(front[i] == rows[i]);
        }
        lemma_all_evictable_removed(all, front, excess);
        assert(rows[rows.len() - 1] == rows.last());
    }
}

/// Retention never drops a favorite.
proof fn lemma_unexpired_favorites(rows: Seq<StoredRow>, cutoff: int)
    ensures
        favorites(unexpired(rows, cutoff)) == favorites(rows),
    decreases rows.len(),
{
    if rows.len() > 0 {
        lemma_unexpired_favorites(rows.drop_last(), cutoff);
        let front = unexpired(rows.drop_last(), cutoff);
        if !(rows.last().row.is_favorite == 0 && rows.last().row.captured_at_ms < cutoff) {
            assert(front.push(rows.last()).drop_last() =~= front);
        }
    }
}

/// Trimming a table with distinct ids to `capacity` leaves no more rows
/// than the larger of the capacity and the number of favorites.
pub proof fn lemma_eviction_within_capacity_or_favorites(rows: Seq<StoredRow>, capacity: u32)
    requires
        rows_unique(rows),
    ensures
        after_eviction(rows, capacity).len() <= capacity || after_eviction(rows, capacity).len()
            <= favorites(rows).len(),
{
    lemma_eviction_bounds_rows(rows, capacity);
    if rows.len() > capacity && after_eviction(rows, capacity).len() > capacity {
        let excess = rows.len() - capacity;
        let kept = survivors(rows, rows, excess);
        lemma_survivors_members(rows, rows, excess);
        assert forall|i: int| 0 <= i < rows.len() && evictable(rows[i].row) implies is_victim(
            rows,
            (#[trigger] rows[i]).row,
            excess,
        ) by {
            if !is_victim(rows, rows[i].row, excess) {
                assert(kept.contains(rows[i]));
                let k = choose|k: int| 0 <= k < kept.len() && kept[k] == rows[i];
                assert(!evictable(kept[k].row));
            }
        }
        lemma_all_evictable_removed(rows, rows, excess);
        lemma_survivors_count(rows, rows, excess);
        lemma_favorites_split(rows);
    }
}

/// After retention and trimming to `capacity`, a table with distinct rows
/// holds no more rows than the larger of the capacity and the number of
/// favorites it had.
pub proof fn lemma_retention_within_capacity_or_favorites(rows: Seq<StoredRow>, days: Option<u16>, capacity: u32, now: u64)
    requires
        rows_unique(rows),
    ensures
        after_retention(rows, days, capacity, now) matches Ok(kept) ==> (kept.len() <= capacity || kept.len()
            <= favorites(rows).len()),
{
    match days {
        None => {
            lemma_eviction_within_capacity_or_favorites(rows, capacity);
        },
        Some(d) => {
            let cutoff = if now >= d * 86_400_000 { now - d * 86_400_000 } else { 0 };
            lemma_filtered_unique(rows, cutoff);
            lemma_unexpired_favorites(rows, cutoff);
            lemma_eviction_within_capacity_or_favorites(unexpired(rows, cutoff), capacity);
        },
    }
}

/// Replacing a row by one that is as much a favorite keeps the count of
/// rows that are not favorites.
proof fn lemma_evictable_count_update(rows: Seq<StoredRow>, i: int, row: StoredRow)
    requires
        0 <= i < rows.len(),
        evictable(rows[i].row) == evictable(row.row),
    ensures
        evictable_count(rows.update(i, row)) == evictable_count(rows),
    decreases rows.len(),
{
    let updated = rows.update(i, row);
    if i < rows.len() - 1 {
        assert(updated.drop_last() =~= rows.drop_last().update(i, row));
        lemma_evictable_count_update(rows.drop_last(), i, row);
    } else {
        assert(updated.drop_last() =~= rows.drop_last());
    }
}

/// After recording a capture into a well-formed table, the table holds no
/// more rows than the larger of the capacity and the number of favorites it
/// had before.
pub proof fn lemma_record_within_capacity_or_favorites(
    before: Seq<StoredRow>,
    next_id: i64,
    capacity: u32,
    hash: Seq<u8>,
    capture: Capture,
)
    requires
        rows_unique(before),
        forall|i: int| 0 <= i < before.len() ==> #[trigger] below_next(before[i].row.id, next_id),
    ensures
        stored_capture(before, next_id, capacity, hash, capture) matches Ok((rows, _next, _id)) ==> (rows.len()
            <= capacity || rows.len() <= favorites(before).len()),
{
    if let Ok((stored, next, id)) = upserted(before, next_id, hash, capture) {
        let j: int = match content_index(before, capture.kind, hash) {
            Some(i) => i,
            None => before.len() as int,
        };
        assert(rows_unique(stored)) by {
            assert forall|a: int, b: int| 0 <= a < b < stored.len() implies #[trigger] stored[a].row.id
                != #[trigger] stored[b].row.id by {
                if content_index(before, capture.kind, hash) is None && b == before.len() {
                    assert(stored[a] == before[a]);
                    assert(below_next(before[a].row.id, next_id));
                }
            }
            assert forall|a: int, b: int|
                0 <= a < b < stored.len() implies !(#[trigger] stored[a].row.content_type == #[trigger] stored[b].row.content_type
                && stored[a].hash == stored[b].hash) by {
                if content_index(before, capture.kind, hash) is None && b == before.len() {
                    assert(stored[a] == before[a]);
                }
            }
        }
        lemma_favorites_split(before);
        lemma_favorites_split(stored);
        match content_index(before, capture.kind, hash) {
            Some(i) => {
                lemma_evictable_count_update(before, i, StoredRow { row: refreshed(before[i].row, capture), hash });
            },
            None => {
                assert(stored.drop_last() =~= before);
            },
        }
        lemma_eviction_within_capacity_or_favorites(stored, capacity);
    }
}

/// Retention keeps every row that is not old enough to expire.
proof fn lemma_unexpired_keeps(rows: Seq<StoredRow>, cutoff: int, i: int)
    requires
        0 <= i < rows.len(),
        !(rows[i].row.is_favorite == 0 && rows[i].row.captured_at_ms < cutoff),
    ensures
        unexpired(rows, cutoff).contains(rows[i]),
    decreases rows.len(),
{
    if i < rows.len() - 1 {
        lemma_unexpired_keeps(rows.drop_last(), cutoff, i);
        let front = unexpired(rows.drop_last(), cutoff);
        let j = choose|j: int| 0 <= j < front.len() && front[j] == rows.drop_last()[i];
        assert(unexpired(rows, cutoff)[j] == front[j]);
    } else {
        let kept = unexpired(rows, cutoff);
        assert(kept[kept.len() - 1] == rows[i]);
    }
}

/// Retention with a period of `days` days, applied at `now` (milliseconds
/// since the epoch) to a table within its capacity, keeps every row
/// captured at or after `now - days * 86_400_000`: only rows older than
/// `days` whole days can expire.
pub proof fn lemma_retention_keeps_rows_younger_than_the_period(
    rows: Seq<StoredRow>,
    days: u16,
    capacity: u32,
    now: u64,
    i: int,
)
    requires
        0 <= i < rows.len(),
        rows.len() <= capacity,
        rows[i].row.captured_at_ms >= 0,
        rows[i].row.captured_at_ms + days * 86_400_000 >= now,
    ensures
        after_retention(rows, Some(days), capacity, now) matches Ok(kept) ==> kept.contains(rows[i]),
{
    let cutoff: int = if now >= days * 86_400_000 { now - days * 86_400_000 } else { 0 };
    lemma_unexpired_keeps(rows, cutoff, i);
    lemma_unexpired_len(rows, cutoff);
}

/// Retention never adds rows.
proof fn lemma_unexpired_len(rows: Seq<StoredRow>, cutoff: int)
    ensures
        unexpired(rows, cutoff).len() <= rows.len(),
    decreases rows.len(),
{
    if rows.len() > 0 {
        lemma_unexpired_len(rows.drop_last(), cutoff);
    }
}

/// Retention with a period of `days` days, applied at `now`, removes every
/// row that is not a favorite and was captured before
/// `now - days * 86_400_000`: whatever is left is a favorite or younger.
pub proof fn lemma_retention_removes_rows_older_than_the_period(
    rows: Seq<StoredRow>,
    days: u16,
    capacity: u32,
    now: u64,
    k: int,
)
    ensures
        after_retention(rows, Some(days), capacity, now) matches Ok(kept) ==> (0 <= k < kept.len() ==> (
        kept[k].row.is_favorite != 0 || kept[k].row.captured_at_ms >= now - days * 86_400_000)),
{
    lemma_retention_keeps_recent_or_favorite(rows, days, capacity, now, k);
}

/// Eviction goes by capture time: when trimming removes a row and keeps a
/// row that is not a favorite, the removed row is not a favorite either and
/// was captured earlier, or at the same time with a smaller id.
pub proof fn lemma_eviction_goes_by_capture_time(rows: Seq<StoredRow>, capacity: u32, i: int, j: int)
    requires
        rows_unique(rows),
        0 <= i < rows.len(),
        0 <= j < rows.len(),
        !after_eviction(rows, capacity).contains(rows[i]),
        after_eviction(rows, capacity).contains(rows[j]),
        rows[j].row.is_favorite == 0,
    ensures
        rows[i].row.is_favorite == 0,
        rows[j].row.captured_at_ms > rows[i].row.captured_at_ms || (rows[j].row.captured_at_ms
            == rows[i].row.captured_at_ms && rows[j].row.id > rows[i].row.id),
{
    lemma_eviction_removes_oldest(rows, capacity, i, j);
}

/// Lowercasing ASCII twice is lowercasing it once.
proof fn lemma_lower_ascii_idempotent(s: Seq<char>)
    ensures
        lower_ascii(lower_ascii(s)) == lower_ascii(s),
{
    assert forall|i: int| 0 <= i < s.len() implies #[trigger] lower_ascii(lower_ascii(s))[i] == lower_ascii(s)[i] by {
        let c = s[i];
        if 'A' <= c && c <= 'Z' {
            assert((((c as u32) + 32) as u8) as u32 == (c as u32) + 32);
            assert(!('A' <= lower_ascii(s)[i] && lower_ascii(s)[i] <= 'Z'));
        }
    }
    assert(lower_ascii(lower_ascii(s)) =~= lower_ascii(s));
}

/// Search ignores ASCII case in the query: a row matches a needle exactly
/// when it matches the needle lowercased.
pub proof fn lemma_search_ignores_query_case(row: RawRow, favorites_only: bool, needle: Seq<char>)
    ensures
        row_matches(row, favorites_only, Some(needle)) == row_matches(row, favorites_only, Some(lower_ascii(needle))),
{
    lemma_lower_ascii_idempotent(needle);
}

/// Search finds text regardless of ASCII case: a row whose text holds the
/// needle, up to ASCII case, matches it.
pub proof fn lemma_search_finds_text_up_to_case(row: RawRow, needle: Seq<char>, start: int)
    requires
        row.text_content matches Some(text) && 0 <= start && start + needle.len() <= text.len() && lower_ascii(
            text.subrange(start, start + needle.len()),
        ) == lower_ascii(needle),
    ensures
        row_matches(row, false, Some(needle)),
{
    let text = row.text_content->0;
    let whole = text_or_empty(row.text_content) + seq![' '] + text_or_empty(row.source_application) + seq![' ']
        + text_or_empty(row.source_process);
    let hay = search_haystack(row);
    let lowered = lower_ascii(needle);
    assert(hay.subrange(start, start + needle.len()) =~= lowered) by {
        assert forall|k: int| 0 <= k < needle.len() implies #[trigger] hay.subrange(start, start + needle.len())[k]
            == lowered[k] by {
            assert(whole[start + k] == text[start + k]);
            assert(lower_ascii(text.subrange(start, start + needle.len()))[k] == lowered[k]);
        }
    }
    assert(contains_text(hay, lowered));
}

// ---------------------------------------------------------------------------
// Reconciling the table with the files beside it.

/// Whether an image row names one of the `missing` managed images.
pub open spec fn image_missing(row: RawRow, missing: Seq<Seq<char>>) -> bool {
    row.content_type == content_kind_name(ClipboardContentKind::Image) && (row.file_path matches Some(path)
        && missing.contains(path))
}

/// The rows left once the image rows whose managed image is missing go.
pub open spec fn without_missing_images(rows: Seq<StoredRow>, missing: Seq<Seq<char>>) -> Seq<StoredRow>
    decreases rows.len(),
{
    if rows.len() == 0 {
        Seq::empty()
    } else if image_missing(rows.last().row, missing) {
        without_missing_images(rows.drop_last(), missing)
    } else {
        without_missing_images(rows.drop_last(), missing).push(rows.last())
    }
}

/// A row whose source icon is cleared when it is one of the `invalid` ones.
pub open spec fn icon_checked(row: RawRow, invalid: Seq<Seq<char>>) -> RawRow {
    if row.source_icon_path matches Some(path) && invalid.contains(path) {
        RawRow { source_icon_path: None, ..row }
    } else {
        row
    }
}

/// The rows with every invalid source icon reference cleared.
pub open spec fn without_invalid_icons(rows: Seq<StoredRow>, invalid: Seq<Seq<char>>) -> Seq<StoredRow> {
    Seq::new(rows.len(), |i: int| StoredRow { row: icon_checked(rows[i].row, invalid), hash: rows[i].hash })
}

/// The rows with the row `id` pointing at the cached icon `reference`.
pub open spec fn with_icon_for(rows: Seq<StoredRow>, id: i64, reference: Seq<char>) -> Seq<StoredRow> {
    Seq::new(
        rows.len(),
        |i: int|
            if rows[i].row.id == id {
                StoredRow { row: RawRow { source_icon_path: Some(reference), ..rows[i].row }, hash: rows[i].hash }
            } else {
                rows[i]
            },
    )
}

/// Rows that keep each row's id, kind and hash stay distinct.
proof fn lemma_same_keys_unique(rows: Seq<StoredRow>, other: Seq<StoredRow>)
    requires
        rows_unique(rows),
        other.len() == rows.len(),
        forall|i: int|
            0 <= i < rows.len() ==> #[trigger] other[i].row.id == rows[i].row.id && other[i].row.content_type
                == rows[i].row.content_type && other[i].hash == rows[i].hash,
    ensures
        rows_unique(other),
{
    assert forall|a: int, b: int| 0 <= a < b < other.len() implies #[trigger] other[a].row.id
        != #[trigger] other[b].row.id by {
        assert(rows[a].row.id != rows[b].row.id);
    }
    assert forall|a: int, b: int|
        0 <= a < b < other.len() implies !(#[trigger] other[a].row.content_type
        == #[trigger] other[b].row.content_type && other[a].hash == other[b].hash) by {
        assert(other[a].row.id == rows[a].row.id);
        assert(other[b].row.id == rows[b].row.id);
        assert(!(rows[a].row.content_type == rows[b].row.content_type && rows[a].hash == rows[b].hash));
    }
}

/// Dropping the rows of missing images keeps the rest distinct, and keeps
/// only rows of the table.
proof fn lemma_without_missing_unique(rows: Seq<StoredRow>, missing: Seq<Seq<char>>)
    requires
        rows_unique(rows),
    ensures
        rows_unique(without_missing_images(rows, missing)),
        forall|k: int|
            0 <= k < without_missing_images(rows, missing).len() ==> rows.contains(
                #[trigger] without_missing_images(rows, missing)[k],
            ),
        without_missing_images(rows, missing).len() <= rows.len(),
    decreases rows.len(),
{
    if rows.len() > 0 {
        let front = rows.drop_last();
        let last = rows.last();
        assert forall|i: int, j: int| 0 <= i < j < front.len() implies #[trigger] front[i].row.id
            != #[trigger] front[j].row.id by {
            assert(front[i] == rows[i] && front[j] == rows[j]);
        }
        assert forall|i: int, j: int|
            0 <= i < j < front.len() implies !(#[trigger] front[i].row.content_type
            == #[trigger] front[j].row.content_type && front[i].hash == front[j].hash) by {
            assert(front[i] == rows[i] && front[j] == rows[j]);
        }
        lemma_without_missing_unique(front, missing);
        let a = without_missing_images(front, missing);
        assert forall|k: int| 0 <= k < a.len() implies #[trigger] a[k].row.id != last.row.id && !(
            a[k].row.content_type == last.row.content_type && a[k].hash == last.hash) by {
            assert(front.contains(a[k]));
            let i = choose|i: int| 0 <= i < front.len() && front[i] == a[k];
            assert(rows[i] == a[k]);
            assert(rows[rows.len() - 1] == last);
        }
        lemma_push_unique(a, last);
        assert forall|k: int| 0 <= k < a.len() implies rows.contains(#[trigger] a[k]) by {
            assert(front.contains(a[k]));
            let i = choose|i: int| 0 <= i < front.len() && front[i] == a[k];
            assert(rows[i] == a[k]);
        }
        assert(rows[rows.len() - 1] == last);
        assert(a.push(last)[a.len() as int] == last);
        assert forall|k: int| 0 <= k < a.push(last).len() implies rows.contains(#[trigger] a.push(last)[k]) by {
            if k < a.len() {
                assert(a.push(last)[k] == a[k]);
            }
        }
    }
}

/// Whether `names` holds `name`.
fn contains_name(names: &Vec<String>, name: &str) -> (found: bool)
    ensures
        found == string_views(names@).contains(name@),
{
    let mut i: usize = 0;
    while i < names.len()
        invariant
            i <= names@.len(),
            forall|k: int| 0 <= k < i ==> names@[k]@ != name@,
        decreases names.len() - i,
    {
        if crate::text::str_equal(names[i].as_str(), name) {
            assert(string_views(names@)[i as int] == name@);
            return true;
        }
        i += 1;
    }
    proof {
        if string_views(names@).contains(name@) {
            let k = choose|k: int| 0 <= k < string_views(names@).len() && string_views(names@)[k] == name@;
            assert(names@[k]@ == name@);
        }
    }
    false
}

/// The managed image references of the image rows, in order.
pub open spec fn image_names(rows: Seq<StoredRow>) -> Seq<Seq<char>>
    decreases rows.len(),
{
    if rows.len() == 0 {
        Seq::empty()
    } else {
        let front = image_names(rows.drop_last());
        let last = rows.last().row;
        if last.content_type == "image"@ && last.file_path is Some {
            front.push(last.file_path->0)
        } else {
            front
        }
    }
}

/// The source icon references of the rows, each once, in order of first use.
pub open spec fn icon_names(rows: Seq<StoredRow>) -> Seq<Seq<char>>
    decreases rows.len(),
{
    if rows.len() == 0 {
        Seq::empty()
    } else {
        let front = icon_names(rows.drop_last());
        match rows.last().row.source_icon_path {
            Some(name) => if front.contains(name) {
                front
            } else {
                front.push(name)
            },
            None => front,
        }
    }
}

impl<F: ClipboardFiles> ClipboardService<F> {
    /// Caches the icon of the executable a capture came from.
    pub fn cache_source_icon(&mut self, executable: &str) -> (reference: Option<String>)
        requires
            old(self).wf(),
        ensures
            final(self).wf(),
            final(self).table() == old(self).table(),
            final(self).next_row_id() == old(self).next_row_id(),
            final(self).preferences() == old(self).preferences(),
            final(self).settings_table() == old(self).settings_table(),
            final(self).observations() == old(self).observations(),
    {
        self.files.cache_source_icon(executable)
    }

    /// Points the row `id` at a cached source icon, after checking that the
    /// cache can read it; nothing to attach leaves the table as it is.
    #[verifier::loop_isolation(false)]
    pub fn attach_source_icon(&mut self, id: i64, reference: Option<&str>) -> (result: Result<(), ClipboardError>)
        requires
            old(self).wf(),
        ensures
            final(self).wf(),
            final(self).next_row_id() == old(self).next_row_id(),
            final(self).preferences() == old(self).preferences(),
            final(self).settings_table() == old(self).settings_table(),
            final(self).observations() == old(self).observations(),
            match reference {
                None => result is Ok && final(self).table() == old(self).table(),
                Some(name) => {
                    ||| result == Err::<(), ClipboardError>(ClipboardError::SourceIcon) && final(self).table()
                        == old(self).table()
                    ||| result is Ok && final(self).table() == with_icon_for(old(self).table(), id, name@)
                },
            },
    {
        let name = match reference {
            None => {
                return Ok(());
            },
            Some(name) => name,
        };
        match self.files.read_source_icon(name) {
            Some(_) => {},
            None => {
                return Err(ClipboardError::SourceIcon);
            },
        }
        let ghost before = self.table();
        let mut remaining: Vec<HistoryRow> = Vec::new();
        std::mem::swap(&mut remaining, &mut self.rows);
        let total = remaining.len();
        let mut k: usize = 0;
        while k < total
            invariant
                k <= total,
                total == before.len(),
                remaining@.len() == total - k,
                forall|j: int| 0 <= j < remaining@.len() ==> #[trigger] remaining@[j].stored() == before[j + k],
                self.next_id == old(self).next_id,
                self.settings == old(self).settings,
                self.store == old(self).store,
                self.corrupt_history_row_observations == old(self).corrupt_history_row_observations,
                stored_rows(self.rows@) == with_icon_for(before, id, name@).subrange(0, k as int),
            decreases total - k,
        {
            let mut row = remaining.remove(0);
            assert(row.stored() == before[k as int]);
            let ghost kept = stored_rows(self.rows@);
            if row.raw.id == id {
                row.raw.source_icon_path = Some(name.to_owned());
            }
            self.rows.push(row);
            assert(stored_rows(self.rows@) =~= kept.push(with_icon_for(before, id, name@)[k as int]));
            assert(with_icon_for(before, id, name@).subrange(0, k + 1) =~= with_icon_for(before, id, name@).subrange(
                0,
                k as int,
            ).push(with_icon_for(before, id, name@)[k as int]));
            k += 1;
        }
        proof {
            let after = with_icon_for(before, id, name@);
            assert(after.subrange(0, total as int) =~= after);
            assert forall|i: int| 0 <= i < before.len() implies #[trigger] after[i].row.id == before[i].row.id
                && after[i].row.content_type == before[i].row.content_type && after[i].hash == before[i].hash by {}
            lemma_same_keys_unique(before, after);
            assert(self.table() == after);
            assert forall|j: int| 0 <= j < self.rows@.len() implies #[trigger] below_next(self.rows@[j].raw.id, self.next_id) by {
                assert(self.table()[j].row.id == self.rows@[j].raw.id);
                assert(after[j].row.id == before[j].row.id);
                assert(before[j].row.id == old(self).rows@[j].raw.id);
                assert(below_next(old(self).rows@[j].raw.id, old(self).next_id));
            }
        }
        Ok(())
    }

    /// Drops the image rows whose managed image is among `missing`.
    #[verifier::loop_isolation(false)]
    pub fn remove_missing_image_rows(&mut self, missing: &Vec<String>)
        requires
            old(self).wf(),
        ensures
            final(self).wf(),
            final(self).table() == without_missing_images(old(self).table(), string_views(missing@)),
            final(self).next_row_id() == old(self).next_row_id(),
            final(self).preferences() == old(self).preferences(),
            final(self).settings_table() == old(self).settings_table(),
            final(self).observations() == old(self).observations(),
    {
        let ghost before = self.table();
        let ghost names = string_views(missing@);
        let mut remaining: Vec<HistoryRow> = Vec::new();
        std::mem::swap(&mut remaining, &mut self.rows);
        let total = remaining.len();
        let mut k: usize = 0;
        while k < total
            invariant
                k <= total,
                total == before.len(),
                names == string_views(missing@),
                remaining@.len() == total - k,
                forall|j: int| 0 <= j < remaining@.len() ==> #[trigger] remaining@[j].stored() == before[j + k],
                self.next_id == old(self).next_id,
                self.settings == old(self).settings,
                self.store == old(self).store,
                self.corrupt_history_row_observations == old(self).corrupt_history_row_observations,
                stored_rows(self.rows@) == without_missing_images(before.subrange(0, k as int), names),
            decreases total - k,
        {
            let row = remaining.remove(0);
            assert(row.stored() == before[k as int]);
            let ghost kept = stored_rows(self.rows@);
            assert(before.subrange(0, k + 1).drop_last() =~= before.subrange(0, k as int));
            assert(before.subrange(0, k + 1).last() == before[k as int]);
            let is_image = crate::text::str_equal(row.raw.content_type.as_str(), "image");
            proof {
                reveal_strlit("image");
                assert(content_kind_name(ClipboardContentKind::Image) =~= "image"@);
            }
            let gone = is_image && match &row.raw.file_path {
                Some(path) => contains_name(missing, path.as_str()),
                None => false,
            };
            if !gone {
                self.rows.push(row);
                assert(stored_rows(self.rows@) =~= kept.push(before[k as int]));
            }
            k += 1;
        }
        assert(before.subrange(0, total as int) =~= before);
        proof {
            lemma_without_missing_unique(before, names);
            let after = self.table();
            assert(after == without_missing_images(before, names));
            assert forall|j: int| 0 <= j < self.rows@.len() implies #[trigger] below_next(self.rows@[j].raw.id, self.next_id) by {
                assert(after[j].row.id == self.rows@[j].raw.id);
                assert(before.contains(after[j]));
                let i = choose|i: int| 0 <= i < before.len() && before[i] == after[j];
                assert(before[i].row.id == old(self).rows@[i].raw.id);
                assert(below_next(old(self).rows@[i].raw.id, old(self).next_id));
            }
        }
    }

    /// Clears the source icon references that are among `invalid`.
    #[verifier::loop_isolation(false)]
    pub fn clear_invalid_source_icons(&mut self, invalid: &Vec<String>)
        requires
            old(self).wf(),
        ensures
            final(self).wf(),
            final(self).table() == without_invalid_icons(old(self).table(), string_views(invalid@)),
            final(self).next_row_id() == old(self).next_row_id(),
            final(self).preferences() == old(self).preferences(),
            final(self).settings_table() == old(self).settings_table(),
            final(self).observations() == old(self).observations(),
    {
        let ghost before = self.table();
        let ghost names = string_views(invalid@);
        let mut remaining: Vec<HistoryRow> = Vec::new();
        std::mem::swap(&mut remaining, &mut self.rows);
        let total = remaining.len();
        let mut k: usize = 0;
        while k < total
            invariant
                k <= total,
                total == before.len(),
                names == string_views(invalid@),
                remaining@.len() == total - k,
                forall|j: int| 0 <= j < remaining@.len() ==> #[trigger] remaining@[j].stored() == before[j + k],
                self.next_id == old(self).next_id,
                self.settings == old(self).settings,
                self.store == old(self).store,
                self.corrupt_history_row_observations == old(self).corrupt_history_row_observations,
                stored_rows(self.rows@) == without_invalid_icons(before, names).subrange(0, k as int),
            decreases total - k,
        {
            let mut row = remaining.remove(0);
            assert(row.stored() == before[k as int]);
            let ghost kept = stored_rows(self.rows@);
            let clear = match &row.raw.source_icon_path {
                Some(path) => contains_name(invalid, path.as_str()),
                None => false,
            };
            if clear {
                row.raw.source_icon_path = None;
            }
            self.rows.push(row);
            assert(stored_rows(self.rows@) =~= kept.push(without_invalid_icons(before, names)[k as int]));
            assert(without_invalid_icons(before, names).subrange(0, k + 1) =~= without_invalid_icons(
                before,
                names,
            ).subrange(0, k as int).push(without_invalid_icons(before, names)[k as int]));
            k += 1;
        }
        proof {
            let after = without_invalid_icons(before, names);
            assert(after.subrange(0, total as int) =~= after);
            assert forall|i: int| 0 <= i < before.len() implies #[trigger] after[i].row.id == before[i].row.id
                && after[i].row.content_type == before[i].row.content_type && after[i].hash == before[i].hash by {}
            lemma_same_keys_unique(before, after);
            assert(self.table() == after);
            assert forall|j: int| 0 <= j < self.rows@.len() implies #[trigger] below_next(self.rows@[j].raw.id, self.next_id) by {
                assert(self.table()[j].row.id == self.rows@[j].raw.id);
                assert(after[j].row.id == before[j].row.id);
                assert(before[j].row.id == old(self).rows@[j].raw.id);
                assert(below_next(old(self).rows@[j].raw.id, old(self).next_id));
            }
        }
    }

    /// The managed image references of the image rows.
    fn image_references(&self) -> (references: Vec<String>)
        ensures
            string_views(references@) == image_names(self.table()),
    {
        let mut references: Vec<String> = Vec::new();
        let mut i: usize = 0;
        while i < self.rows.len()
            invariant
                i <= self.rows@.len(),
                string_views(references@) == image_names(self.table().take(i as int)),
            decreases self.rows.len() - i,
        {
            let ghost before = references@;
            assert(self.table().take(i + 1).drop_last() =~= self.table().take(i as int));
            assert(self.table().take(i + 1).last() == self.table()[i as int]);
            proof {
                reveal_strlit("image");
            }
            if crate::text::str_equal(self.rows[i].raw.content_type.as_str(), "image") {
                if let Some(path) = &self.rows[i].raw.file_path {
                    references.push(path.clone());
                    assert(string_views(references@) =~= string_views(before).push(path@));
                }
            }
            i += 1;
        }
        assert(self.table().take(self.rows@.len() as int) =~= self.table());
        references
    }

    /// The distinct source icon references of the rows.
    fn source_icon_references(&self) -> (references: Vec<String>)
        ensures
            string_views(references@) == icon_names(self.table()),
    {
        let mut references: Vec<String> = Vec::new();
        let mut i: usize = 0;
        while i < self.rows.len()
            invariant
                i <= self.rows@.len(),
                string_views(references@) == icon_names(self.table().take(i as int)),
            decreases self.rows.len() - i,
        {
            let ghost before = references@;
            assert(self.table().take(i + 1).drop_last() =~= self.table().take(i as int));
            assert(self.table().take(i + 1).last() == self.table()[i as int]);
            if let Some(path) = &self.rows[i].raw.source_icon_path {
                if !contains_name(&references, path.as_str()) {
                    references.push(path.clone());
                    assert(string_views(references@) =~= string_views(before).push(path@));
                }
            }
            i += 1;
        }
        assert(self.table().take(self.rows@.len() as int) =~= self.table());
        references
    }

    /// Reconciles the managed images with the image rows: the files remove
    /// images no row names and report the rows' images that are missing;
    /// those rows then go.
    pub fn reconcile_images(&mut self) -> (result: Result<(), ClipboardError>)
        requires
            old(self).wf(),
        ensures
            final(self).wf(),
            result is Ok,
            exists|missing: Seq<Seq<char>>| final(self).table() == without_missing_images(old(self).table(), missing),
            final(self).next_row_id() == old(self).next_row_id(),
            final(self).preferences() == old(self).preferences(),
            final(self).settings_table() == old(self).settings_table(),
            final(self).observations() == old(self).observations(),
    {
        let references = self.image_references();
        let missing = self.files.reconcile_images(references.as_slice());
        self.remove_missing_image_rows(&missing);
        Ok(())
    }

    /// Reconciles the cached source icons with the rows: the cache removes
    /// icons no row names and reports invalid references, which the rows
    /// then drop and the cache removes.
    pub fn reconcile_source_icons(&mut self) -> (result: Result<(), ClipboardError>)
        requires
            old(self).wf(),
        ensures
            final(self).wf(),
            result is Ok,
            exists|invalid: Seq<Seq<char>>| final(self).table() == without_invalid_icons(old(self).table(), invalid),
            final(self).next_row_id() == old(self).next_row_id(),
            final(self).preferences() == old(self).preferences(),
            final(self).settings_table() == old(self).settings_table(),
            final(self).observations() == old(self).observations(),
    {
        let references = self.source_icon_references();
        let invalid = self.files.reconcile_source_icons(references.as_slice());
        if invalid.len() > 0 {
            self.clear_invalid_source_icons(&invalid);
            self.files.remove_source_icons(invalid.as_slice());
        } else {
            proof {
                let before = self.table();
                assert(without_invalid_icons(before, string_views(invalid@)) =~= before);
            }
        }
        Ok(())
    }
}

} // verus!
