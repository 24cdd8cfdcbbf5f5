//! The wide `CF_HDROP` (`DROPFILES`) clipboard format: a 20-byte header
//! followed by NUL-terminated UTF-16 paths and one extra NUL.
use vstd::prelude::*;

use crate::dib::MAX_CLIPBOARD_BLOCK_BYTES;
use crate::le_bytes::{le_u32, read_u32};

verus! {

/// A list of file paths, each as UTF-16 code units.
#[derive(Debug, Clone, PartialEq, Eq)]
pub struct ClipboardFiles {
    pub paths: Vec<Vec<u16>>,
}

/// Most paths one clipboard file list may hold.
pub const MAX_CLIPBOARD_FILES: usize = 128;
/// Longest path, in UTF-16 code units.
pub const MAX_CLIPBOARD_FILE_PATH_UNITS: usize = 32_767;
/// Largest serialized file list.
pub const MAX_CLIPBOARD_FILE_PATHS_JSON_BYTES: usize = 1_048_576;

/// The code units of a little-endian byte string (an odd trailing byte is ignored).
pub open spec fn units_from_le_bytes(bytes: Seq<u8>) -> Seq<u16> {
    Seq::new(
        (bytes.len() / 2) as nat,
        |i: int| (bytes[2 * i] as int + 256 * bytes[2 * i + 1] as int) as u16,
    )
}

/// The little-endian bytes of `units`.
pub open spec fn le_bytes_of_units(units: Seq<u16>) -> Seq<u8> {
    Seq::new(
        (2 * units.len()) as nat,
        |i: int|
            if i % 2 == 0 {
                (units[i / 2] % 256) as u8
            } else {
                (units[i / 2] / 256) as u8
            },
    )
}

/// A path the file-list formats accept: non-empty, no NUL, bounded length.
pub open spec fn valid_path_units(path: Seq<u16>) -> bool {
    &&& 0 < path.len() <= MAX_CLIPBOARD_FILE_PATH_UNITS
    &&& forall|i: int| 0 <= i < path.len() ==> path[i] != 0
}

/// A list of paths the file-list formats accept.
pub open spec fn valid_path_list(paths: Seq<Seq<u16>>) -> bool {
    &&& 0 < paths.len() <= MAX_CLIPBOARD_FILES
    &&& forall|i: int| 0 <= i < paths.len() ==> valid_path_units(#[trigger] paths[i])
}

/// Each path followed by a NUL, then one more NUL.
pub open spec fn nul_list_units(paths: Seq<Seq<u16>>) -> Seq<u16>
    decreases paths.len(),
{
    if paths.len() == 0 {
        seq![0u16]
    } else {
        paths[0] + seq![0u16] + nul_list_units(paths.drop_first())
    }
}

/// Index of the first NUL in `units`, or its length when there is none.
pub open spec fn first_nul(units: Seq<u16>) -> nat
    decreases units.len(),
{
    if units.len() == 0 {
        0
    } else if units[0] == 0 {
        0
    } else {
        1 + first_nul(units.drop_first())
    }
}

/// Splits a NUL-terminated path list that ends with an empty entry and
/// nothing after it; `None` when it is malformed or a path is too long.
pub open spec fn split_nul_list(units: Seq<u16>) -> Option<Seq<Seq<u16>>>
    decreases units.len(),
{
    if units.len() == 0 {
        None
    } else if units[0] == 0 {
        if units.len() == 1 {
            Some(Seq::empty())
        } else {
            None
        }
    } else {
        let end = first_nul(units) as int;
        if end >= units.len() || end > MAX_CLIPBOARD_FILE_PATH_UNITS {
            None
        } else {
            match split_nul_list(units.subrange(end + 1, units.len() as int)) {
                Some(rest) => Some(seq![units.subrange(0, end)] + rest),
                None => None,
            }
        }
    }
}

/// The header checks of a wide `DROPFILES` block.
pub open spec fn hdrop_header_ok(b: Seq<u8>) -> bool {
    let offset = le_u32(b, 0);
    &&& 22 <= b.len() <= MAX_CLIPBOARD_BLOCK_BYTES
    &&& 20 <= offset < b.len()
    &&& offset % 2 == 0
    &&& le_u32(b, 16) != 0
}

/// A split path list when it holds between one and `MAX_CLIPBOARD_FILES` paths.
pub open spec fn bounded_path_list(found: Option<Seq<Seq<u16>>>) -> Option<Seq<Seq<u16>>> {
    match found {
        Some(paths) => if 0 < paths.len() <= MAX_CLIPBOARD_FILES {
            Some(paths)
        } else {
            None
        },
        None => None,
    }
}

/// The paths of a wide `DROPFILES` block, or `None` when it is malformed.
pub open spec fn hdrop_paths(b: Seq<u8>) -> Option<Seq<Seq<u16>>> {
    if !hdrop_header_ok(b) {
        None
    } else {
        let payload = b.subrange(le_u32(b, 0), b.len() as int);
        if payload.len() < 4 || payload.len() % 2 != 0 {
            None
        } else {
            bounded_path_list(split_nul_list(units_from_le_bytes(payload)))
        }
    }
}

/// The views of a vector of paths.
pub open spec fn path_views(paths: Seq<Vec<u16>>) -> Seq<Seq<u16>> {
    Seq::new(paths.len(), |i: int| paths[i]@)
}

/// The header a wide `DROPFILES` block starts with: offset 20, wide names.
pub open spec fn dropfiles_header() -> Seq<u8> {
    seq![20u8, 0, 0, 0, 0, 0, 0, 0, 0, 0, 0, 0, 0, 0, 0, 0, 1, 0, 0, 0]
}

/// The `CF_HDROP` block that lists `paths`.
pub open spec fn hdrop_bytes(paths: Seq<Seq<u16>>) -> Seq<u8> {
    dropfiles_header() + le_bytes_of_units(nul_list_units(paths))
}

// ---------------------------------------------------------------------------
// Lemmas.

proof fn lemma_first_nul_bounds(units: Seq<u16>)
    ensures
        0 <= first_nul(units) <= units.len(),
        forall|i: int| 0 <= i < first_nul(units) ==> units[i] != 0,
        first_nul(units) < units.len() ==> units[first_nul(units) as int] == 0,
    decreases units.len(),
{
    if units.len() > 0 && units[0] != 0 {
        lemma_first_nul_bounds(units.drop_first());
        assert forall|i: int| 0 <= i < first_nul(units) implies units[i] != 0 by {
            if i > 0 {
                assert(units[i] == units.drop_first()[i - 1]);
            }
        }
    }
}

proof fn lemma_first_nul_of_prefix(path: Seq<u16>, rest: Seq<u16>)
    requires
        forall|i: int| 0 <= i < path.len() ==> path[i] != 0,
    ensures
        first_nul(path + seq![0u16] + rest) == path.len(),
    decreases path.len(),
{
    let whole = path + seq![0u16] + rest;
    if path.len() > 0 {
        assert(whole.drop_first() =~= path.drop_first() + seq![0u16] + rest);
        lemma_first_nul_of_prefix(path.drop_first(), rest);
    }
}

proof fn lemma_first_nul_scan(units: Seq<u16>, start: int, end: int)
    requires
        0 <= start <= end <= units.len(),
        forall|i: int| start <= i < end ==> units[i] != 0,
        end == units.len() || units[end] == 0,
    ensures
        first_nul(units.subrange(start, units.len() as int)) == end - start,
    decreases end - start,
{
    let s = units.subrange(start, units.len() as int);
    if start < end {
        assert(s.drop_first() =~= units.subrange(start + 1, units.len() as int));
        lemma_first_nul_scan(units, start + 1, end);
    }
}

/// Splitting the units of a valid path list gives the list back.
pub proof fn lemma_split_nul_list_roundtrip(paths: Seq<Seq<u16>>)
    requires
        paths.len() <= MAX_CLIPBOARD_FILES,
        forall|i: int| 0 <= i < paths.len() ==> valid_path_units(#[trigger] paths[i]),
    ensures
        split_nul_list(nul_list_units(paths)) == Some(paths),
    decreases paths.len(),
{
    if paths.len() > 0 {
        let units = nul_list_units(paths);
        let path = paths[0];
        let rest = nul_list_units(paths.drop_first());
        assert(valid_path_units(paths[0]));
        assert(units =~= path + seq![0u16] + rest);
        lemma_first_nul_of_prefix(path, rest);
        assert(units[0] == path[0]);
        assert(units.subrange(path.len() + 1int, units.len() as int) =~= rest);
        assert(units.subrange(0, path.len() as int) =~= path);
        assert forall|i: int| 0 <= i < paths.drop_first().len() implies valid_path_units(
            #[trigger] paths.drop_first()[i],
        ) by {
            assert(paths.drop_first()[i] == paths[i + 1]);
        }
        lemma_split_nul_list_roundtrip(paths.drop_first());
        assert(seq![path] + paths.drop_first() =~= paths);
    }
}

proof fn lemma_split_nul_list_valid(units: Seq<u16>)
    ensures
        split_nul_list(units) matches Some(paths) ==> forall|i: int|
            0 <= i < paths.len() ==> valid_path_units(#[trigger] paths[i]),
    decreases units.len(),
{
    if units.len() > 0 && units[0] != 0 {
        let end = first_nul(units) as int;
        lemma_first_nul_bounds(units);
        if end < units.len() && end <= MAX_CLIPBOARD_FILE_PATH_UNITS {
            let tail = units.subrange(end + 1, units.len() as int);
            lemma_split_nul_list_valid(tail);
            if let Some(rest) = split_nul_list(tail) {
                let paths = seq![units.subrange(0, end)] + rest;
                assert(first_nul(units) == 1 + first_nul(units.drop_first()));
                assert forall|i: int| 0 <= i < paths.len() implies valid_path_units(
                    #[trigger] paths[i],
                ) by {
                    if i == 0 {
                        assert(paths[0] == units.subrange(0, end));
                    } else {
                        assert(paths[i] == rest[i - 1]);
                    }
                }
            }
        }
    }
}

/// Every path list a `CF_HDROP` block parses to is a valid one.
pub proof fn lemma_hdrop_paths_valid(b: Seq<u8>)
    ensures
        hdrop_paths(b) matches Some(paths) ==> valid_path_list(paths),
{
    if hdrop_header_ok(b) {
        let payload = b.subrange(le_u32(b, 0), b.len() as int);
        lemma_split_nul_list_valid(units_from_le_bytes(payload));
    }
}

proof fn lemma_units_of_le_bytes(units: Seq<u16>)
    ensures
        units_from_le_bytes(le_bytes_of_units(units)) =~= units,
{
    let bytes = le_bytes_of_units(units);
    assert forall|i: int| 0 <= i < units.len() implies #[trigger] units_from_le_bytes(bytes)[i]
        == units[i] by {
        assert((2 * i) % 2 == 0);
        assert((2 * i + 1) % 2 == 1);
        assert((2 * i) / 2 == i);
        assert((2 * i + 1) / 2 == i);
    }
}

// ---------------------------------------------------------------------------
// Exec.

/// Parses a wide `CF_HDROP` block into its file paths.
pub fn parse_hdrop(bytes: &[u8]) -> (result: Result<ClipboardFiles, ()>)
    ensures
        match hdrop_paths(bytes@) {
            Some(paths) => result matches Ok(found) && path_views(found.paths@) == paths,
            None => result is Err,
        },
{
    let ghost b = bytes@;
    if bytes.len() < 22 || bytes.len() > MAX_CLIPBOARD_BLOCK_BYTES {
        return Err(());
    }
    let offset = read_u32(bytes, 0).unwrap() as usize;
    let wide = read_u32(bytes, 16).unwrap();
    if offset < 20 || offset >= bytes.len() || offset % 2 != 0 || wide == 0 {
        return Err(());
    }
    let payload_len = bytes.len() - offset;
    if payload_len < 4 || payload_len % 2 != 0 {
        return Err(());
    }
    let ghost payload = b.subrange(offset as int, b.len() as int);
    let mut units: Vec<u16> = Vec::new();
    let mut j: usize = 0;
    while j < payload_len / 2
        invariant
            b == bytes@,
            bytes@.len() <= MAX_CLIPBOARD_BLOCK_BYTES,
            payload == b.subrange(offset as int, b.len() as int),
            payload_len == payload.len(),
            payload_len % 2 == 0,
            offset + payload_len == bytes@.len(),
            j <= payload_len / 2,
            units@.len() == j,
            forall|i: int| 0 <= i < j ==> units@[i] == units_from_le_bytes(payload)[i],
        decreases payload_len / 2 - j,
    {
        assert(2 * j + 2 <= payload_len);
        let low = bytes[offset + 2 * j];
        let high = bytes[offset + 2 * j + 1];
        units.push(low as u16 + 256 * (high as u16));
        j += 1;
    }
    let ghost all = units_from_le_bytes(payload);
    assert(units@ =~= all);
    assert(hdrop_paths(b) == bounded_path_list(split_nul_list(all)));
    let mut paths: Vec<Vec<u16>> = Vec::new();
    let mut start: usize = 0;
    assert(all.subrange(0, all.len() as int) =~= all);
    proof {
        match split_nul_list(all) {
            Some(r) => {
                assert(path_views(paths@) + r =~= r);
            },
            None => {},
        }
    }
    while start < units.len()
        invariant
            b == bytes@,
            units@ == all,
            start <= units.len(),
            paths@.len() <= MAX_CLIPBOARD_FILES,
            hdrop_paths(b) == bounded_path_list(split_nul_list(all)),
            split_nul_list(all) == match split_nul_list(all.subrange(start as int, all.len() as int)) {
                Some(rest) => Some(path_views(paths@) + rest),
                None => None::<Seq<Seq<u16>>>,
            },
        ensures
            units@ == all,
            start <= units.len(),
            paths@.len() <= MAX_CLIPBOARD_FILES,
            hdrop_paths(b) == bounded_path_list(split_nul_list(all)),
            split_nul_list(all) == match split_nul_list(all.subrange(start as int, all.len() as int)) {
                Some(rest) => Some(path_views(paths@) + rest),
                None => None::<Seq<Seq<u16>>>,
            },
            start == units.len() || all[start as int] == 0,
        decreases units.len() - start,
    {
        let ghost rest = all.subrange(start as int, all.len() as int);
        let mut end = start;
        while end < units.len() && units[end] != 0
            invariant
                units@ == all,
                start <= end <= units.len(),
                forall|i: int| start <= i < end ==> all[i] != 0,
            decreases units.len() - end,
        {
            end += 1;
        }
        proof {
            lemma_first_nul_scan(all, start as int, end as int);
            assert(rest[0] == all[start as int]);
        }
        if end == units.len() {
            proof {
                assert(split_nul_list(rest) is None);
            }
            return Err(());
        }
        let relative_end = end - start;
        if relative_end == 0 {
            break;
        }
        if relative_end > MAX_CLIPBOARD_FILE_PATH_UNITS || paths.len() >= MAX_CLIPBOARD_FILES {
            proof {
                if relative_end <= MAX_CLIPBOARD_FILE_PATH_UNITS {
                    let inner = split_nul_list(rest.subrange(relative_end + 1, rest.len() as int));
                    match inner {
                        Some(r) => {
                            assert(split_nul_list(rest) == Some(
                                seq![rest.subrange(0, relative_end as int)] + r,
                            ));
                        },
                        None => {
                            assert(split_nul_list(rest) is None);
                        },
                    }
                } else {
                    assert(split_nul_list(rest) is None);
                }
            }
            return Err(());
        }
        let mut path: Vec<u16> = Vec::new();
        let mut k = start;
        while k < end
            invariant
                units@ == all,
                start <= k <= end,
                end < units.len(),
                path@ == all.subrange(start as int, k as int),
            decreases end - k,
        {
            path.push(units[k]);
            k += 1;
            assert(path@ =~= all.subrange(start as int, k as int));
        }
        proof {
            assert(rest.subrange(0, relative_end as int) =~= path@);
            assert(rest.subrange(relative_end + 1, rest.len() as int) =~= all.subrange(
                end + 1,
                all.len() as int,
            ));
        }
        let ghost before = path_views(paths@);
        paths.push(path);
        proof {
            assert(path_views(paths@) =~= before.push(path@));
            match split_nul_list(all.subrange(end + 1, all.len() as int)) {
                Some(tail) => {
                    assert(split_nul_list(rest) == Some(seq![path@] + tail));
                    assert(before + (seq![path@] + tail) =~= path_views(paths@) + tail);
                },
                None => {
                    assert(split_nul_list(rest) is None);
                },
            }
        }
        start = end + 1;
    }
    let ghost rest = all.subrange(start as int, all.len() as int);
    if paths.len() == 0 || start + 1 != units.len() {
        proof {
            if start < units.len() {
                assert(rest[0] == 0);
                if start + 1 == units.len() {
                    assert(split_nul_list(rest) == Some(Seq::<Seq<u16>>::empty()));
                    assert(path_views(paths@) + Seq::<Seq<u16>>::empty() =~= path_views(paths@));
                } else {
                    assert(split_nul_list(rest) is None);
                }
            } else {
                assert(split_nul_list(rest) is None);
            }
        }
        return Err(());
    }
    proof {
        assert(rest.len() == 1 && rest[0] == 0);
        assert(split_nul_list(rest) == Some(Seq::<Seq<u16>>::empty()));
        assert(path_views(paths@) + Seq::<Seq<u16>>::empty() =~= path_views(paths@));
    }
    Ok(ClipboardFiles { paths })
}

/// Serializes `paths` as a wide `CF_HDROP` block.
pub fn paths_to_hdrop_bytes(paths: &[Vec<u16>]) -> (result: Vec<u8>)
    requires
        valid_path_list(path_views(paths@)),
    ensures
        result@ == hdrop_bytes(path_views(paths@)),
{
    let mut units: Vec<u16> = Vec::new();
    let mut i: usize = 0;
    let ghost all = path_views(paths@);
    assert(all.subrange(0, all.len() as int) =~= all);
    while i < paths.len()
        invariant
            all == path_views(paths@),
            valid_path_list(all),
            i <= paths.len(),
            units@ + nul_list_units(all.subrange(i as int, all.len() as int)) == nul_list_units(
                all,
            ),
            units@.len() <= i * (MAX_CLIPBOARD_FILE_PATH_UNITS + 1),
        decreases paths.len() - i,
    {
        let path = &paths[i];
        let ghost before = units@;
        assert(valid_path_units(all[i as int]));
        let mut k: usize = 0;
        while k < path.len()
            invariant
                path@ == all[i as int],
                k <= path.len(),
                units@ == before + path@.subrange(0, k as int),
                path@.len() <= MAX_CLIPBOARD_FILE_PATH_UNITS,
            decreases path.len() - k,
        {
            units.push(path[k]);
            k += 1;
            assert(units@ =~= before + path@.subrange(0, k as int));
        }
        units.push(0);
        proof {
            let tail = all.subrange(i as int, all.len() as int);
            assert(tail[0] == all[i as int]);
            assert(tail.drop_first() =~= all.subrange(i + 1, all.len() as int));
            assert(path@.subrange(0, path@.len() as int) =~= path@);
            assert(before + nul_list_units(tail) =~= units@ + nul_list_units(tail.drop_first()));
            assert(units@.len() <= (i + 1) * (MAX_CLIPBOARD_FILE_PATH_UNITS + 1)) by (nonlinear_arith)
                requires
                    units@.len() <= before.len() + MAX_CLIPBOARD_FILE_PATH_UNITS + 1,
                    before.len() <= i * (MAX_CLIPBOARD_FILE_PATH_UNITS + 1),
            ;
        }
        i += 1;
    }
    units.push(0);
    proof {
        assert(all.subrange(all.len() as int, all.len() as int) =~= Seq::<Seq<u16>>::empty());
    }
    let mut bytes: Vec<u8> = vec![20, 0, 0, 0, 0, 0, 0, 0, 0, 0, 0, 0, 0, 0, 0, 0, 1, 0, 0, 0];
    assert(bytes@ =~= dropfiles_header());
    let mut j: usize = 0;
    while j < units.len()
        invariant
            bytes@.len() == 20 + 2 * j,
            j <= units.len(),
            units@ == nul_list_units(all),
            bytes@.subrange(0, 20) == dropfiles_header(),
            forall|t: int| 0 <= t < 2 * j ==> bytes@[20 + t] == le_bytes_of_units(units@)[t],
            units@.len() <= MAX_CLIPBOARD_FILES * (MAX_CLIPBOARD_FILE_PATH_UNITS + 1) + 1,
        decreases units.len() - j,
    {
        let unit = units[j];
        bytes.push((unit % 256) as u8);
        bytes.push((unit / 256) as u8);
        proof {
            assert((2 * j as int) % 2 == 0 && (2 * j as int) / 2 == j);
            assert((2 * j as int + 1) % 2 == 1 && (2 * j as int + 1) / 2 == j);
        }
        j += 1;
    }
    assert(bytes@ =~= hdrop_bytes(all));
    bytes
}

/// Serializing a valid path list and parsing it back gives the same list.
pub proof fn lemma_hdrop_roundtrip(paths: Seq<Seq<u16>>)
    requires
        valid_path_list(paths),
        hdrop_bytes(paths).len() <= MAX_CLIPBOARD_BLOCK_BYTES,
    ensures
        hdrop_paths(hdrop_bytes(paths)) == Some(paths),
{
    let b = hdrop_bytes(paths);
    let units = nul_list_units(paths);
    let header = dropfiles_header();
    assert(units.len() >= 2) by {
        assert(valid_path_units(paths[0]));
        assert(units =~= paths[0] + seq![0u16] + nul_list_units(paths.drop_first()));
        lemma_nul_list_nonempty(paths.drop_first());
    }
    assert(b[0] == 20 && b[1] == 0 && b[2] == 0 && b[3] == 0);
    assert(b[16] == 1 && b[17] == 0 && b[18] == 0 && b[19] == 0);
    assert(le_u32(b, 0) == 20);
    assert(le_u32(b, 16) == 1);
    assert(hdrop_header_ok(b));
    let payload = b.subrange(20, b.len() as int);
    assert(payload =~= le_bytes_of_units(units));
    lemma_units_of_le_bytes(units);
    lemma_split_nul_list_roundtrip(paths);
    assert(split_nul_list(units_from_le_bytes(payload)) == Some(paths));
}

proof fn lemma_nul_list_nonempty(paths: Seq<Seq<u16>>)
    ensures
        nul_list_units(paths).len() >= 1,
    decreases paths.len(),
{
    if paths.len() > 0 {
        lemma_nul_list_nonempty(paths.drop_first());
    }
}

} // verus!
