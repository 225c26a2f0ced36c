//! The records gathered over a run: decoding each block of a file into a
//! record, and ordering the whole collection.

use crate::datetime::GpsDateTime;
use crate::novatek_gps::{
    datetime_exists, datetime_of, is_valid_record, le_u32, rejected_with, Error,
    LatitudeHemisphere, LongitudeHemisphere, NovatekGps,
};
use crate::opts::SortingMode;
use vstd::prelude::*;
use vstd::utf8::encode_utf8;

verus! {

/// One decoded record and the base name of the file it came from. The four
/// measurements are the IEEE-754 single-precision bit patterns stored in the
/// record.
#[derive(Debug, Clone, PartialEq, Eq)]
pub struct GpsData {
    pub file_name: String,
    pub datetime: GpsDateTime,
    /// Packed latitude, DDDmm.mmmm, without sign.
    pub latitude: u32,
    pub latitude_hemisphere: LatitudeHemisphere,
    /// Packed longitude, DDDmm.mmmm, without sign.
    pub longitude: u32,
    pub longitude_hemisphere: LongitudeHemisphere,
    /// Speed in knots.
    pub speed: u32,
    /// Bearing in degrees.
    pub course: u32,
}

/// Block `b` yields a record: every check passes and its timestamp exists.
pub open spec fn decodes(b: Seq<u8>) -> bool {
    is_valid_record(b) && datetime_exists(b)
}

/// `e` is the reason why block `b` yields no record.
pub open spec fn block_rejected_with(b: Seq<u8>, e: Error) -> bool {
    if !is_valid_record(b) {
        rejected_with(b, e)
    } else {
        e == Error::InvalidDateTime
    }
}

/// The latitude hemisphere that a valid block names.
pub open spec fn latitude_hemisphere_of(b: Seq<u8>) -> LatitudeHemisphere {
    if b[41] == 0x53 {
        LatitudeHemisphere::South
    } else {
        LatitudeHemisphere::North
    }
}

/// The longitude hemisphere that a valid block names.
pub open spec fn longitude_hemisphere_of(b: Seq<u8>) -> LongitudeHemisphere {
    if b[42] == 0x57 {
        LongitudeHemisphere::West
    } else {
        LongitudeHemisphere::East
    }
}

/// `d` is the record that block `b` of the file named `name` yields.
pub open spec fn decoded_from(name: Seq<char>, b: Seq<u8>, d: GpsData) -> bool {
    &&& d.file_name@ == name
    &&& datetime_of(b, d.datetime)
    &&& d.latitude == le_u32(b, 44)
    &&& d.latitude_hemisphere == latitude_hemisphere_of(b)
    &&& d.longitude == le_u32(b, 48)
    &&& d.longitude_hemisphere == longitude_hemisphere_of(b)
    &&& d.speed == le_u32(b, 52)
    &&& d.course == le_u32(b, 56)
}

/// The record that `block` of the file named `file_name` yields, or why it
/// yields none.
pub fn decode_block(file_name: &String, block: Vec<u8>) -> (r: Result<GpsData, Error>)
    ensures
        r is Ok <==> decodes(block@),
        r matches Ok(d) ==> decoded_from(file_name@, block@, d),
        r matches Err(e) ==> block_rejected_with(block@, e),
{
    let g = match NovatekGps::new(block) {
        Ok(g) => g,
        Err(e) => return Err(e),
    };
    let datetime = match g.datetime() {
        Some(t) => t,
        None => return Err(Error::InvalidDateTime),
    };
    let latitude_hemisphere = match g.latitude_hemisphere() {
        Ok(h) => h,
        Err(e) => return Err(e),
    };
    let longitude_hemisphere = match g.longitude_hemisphere() {
        Ok(h) => h,
        Err(e) => return Err(e),
    };
    Ok(
        GpsData {
            file_name: file_name.clone(),
            datetime,
            latitude: g.latitude(),
            latitude_hemisphere,
            longitude: g.longitude(),
            longitude_hemisphere,
            speed: g.speed(),
            course: g.bearing(),
        },
    )
}

/// The blocks of `bs` that yield a record, in order.
pub open spec fn accepted(bs: Seq<Seq<u8>>) -> Seq<Seq<u8>>
    decreases bs.len(),
{
    if bs.len() == 0 {
        Seq::empty()
    } else if decodes(bs.last()) {
        accepted(bs.drop_last()).push(bs.last())
    } else {
        accepted(bs.drop_last())
    }
}

/// The bytes of each block.
pub open spec fn block_views(blocks: Seq<Vec<u8>>) -> Seq<Seq<u8>> {
    blocks.map_values(|b: Vec<u8>| b@)
}

/// Appends to `records` the record of each block of the file named
/// `file_name` that yields one, in block order. Returns the index of each
/// other block with the reason it was skipped, in block order.
pub fn extract_records(file_name: &String, blocks: Vec<Vec<u8>>, records: &mut Vec<GpsData>) -> (r:
    Vec<(usize, Error)>)
    ensures
        ({
            let acc = accepted(block_views(blocks@));
            &&& final(records)@.len() == old(records)@.len() + acc.len()
            &&& final(records)@.subrange(0, old(records)@.len() as int) == old(records)@
            &&& forall|k: int|
                0 <= k < acc.len() ==> decoded_from(
                    file_name@,
                    acc[k],
                    #[trigger] final(records)@[old(records)@.len() + k],
                )
            &&& r@.len() + acc.len() == blocks@.len()
        }),
        forall|k: int|
            0 <= k < r@.len() ==> {
                let (i, e) = #[trigger] r@[k];
                &&& i < blocks@.len()
                &&& !decodes(blocks@[i as int]@)
                &&& block_rejected_with(blocks@[i as int]@, e)
            },
        forall|k: int, l: int| 0 <= k < l < r@.len() ==> (#[trigger] r@[k]).0 < (#[trigger] r@[l]).0,
{
    let ghost bs = block_views(blocks@);
    let ghost start = records@.len();
    let ghost old_records = records@;
    let n = blocks.len();
    let mut rest = blocks;
    let mut skipped: Vec<(usize, Error)> = Vec::new();
    let mut i: usize = 0;
    while i < n
        invariant
            n == bs.len(),
            i <= n,
            block_views(rest@) == bs.skip(i as int),
            rest@.len() == n - i,
            records@.len() == start + accepted(bs.take(i as int)).len(),
            records@.subrange(0, start as int) == old_records,
            forall|k: int|
                0 <= k < accepted(bs.take(i as int)).len() ==> decoded_from(
                    file_name@,
                    accepted(bs.take(i as int))[k],
                    #[trigger] records@[start + k],
                ),
            skipped@.len() + accepted(bs.take(i as int)).len() == i,
            forall|k: int|
                0 <= k < skipped@.len() ==> {
                    let (j, e) = #[trigger] skipped@[k];
                    &&& j < i
                    &&& !decodes(bs[j as int])
                    &&& block_rejected_with(bs[j as int], e)
                },
            forall|k: int, l: int|
                0 <= k < l < skipped@.len() ==> (#[trigger] skipped@[k]).0 < (#[trigger] skipped@[l]).0,
        decreases n - i,
    {
        let ghost before = records@;
        let ghost acc = accepted(bs.take(i as int));
        assert(bs.take(i + 1).drop_last() =~= bs.take(i as int));
        assert(bs.take(i + 1).last() == bs[i as int]);
        let ghost old_rest = rest@;
        assert(block_views(old_rest)[0] == old_rest[0]@);
        assert(bs.skip(i as int)[0] == bs[i as int]);
        let block = rest.remove(0);
        assert(block@ == bs[i as int]);
        assert forall|k: int| 0 <= k < rest@.len() implies block_views(rest@)[k] == bs.skip(
            i + 1,
        )[k] by {
            assert(rest@[k] == old_rest[k + 1]);
            assert(block_views(old_rest)[k + 1] == old_rest[k + 1]@);
            assert(bs.skip(i as int)[k + 1] == bs.skip(i + 1)[k]);
        }
        assert(block_views(rest@) =~= bs.skip(i + 1));
        match decode_block(file_name, block) {
            Ok(d) => {
                records.push(d);
                assert(accepted(bs.take(i + 1)) == acc.push(bs[i as int]));
                assert forall|k: int| 0 <= k < acc.len() + 1 implies decoded_from(
                    file_name@,
                    accepted(bs.take(i + 1))[k],
                    #[trigger] records@[start + k],
                ) by {
                    if k < acc.len() {
                        assert(records@[start + k] == before[start + k]);
                    }
                }
                assert(records@.subrange(0, start as int) =~= before.subrange(0, start as int));
            },
            Err(e) => {
                assert(accepted(bs.take(i + 1)) == acc);
                skipped.push((i, e));
            },
        }
        i += 1;
    }
    assert(bs.take(n as int) =~= bs);
    skipped
}

/// Lexicographic order of `a` and `b` from index `i` on, given equal
/// prefixes before it: a proper prefix comes first.
pub open spec fn bytes_lt_from(a: Seq<u8>, b: Seq<u8>, i: int) -> bool
    decreases a.len() - i,
{
    if i >= a.len() {
        i < b.len()
    } else if i >= b.len() {
        false
    } else if a[i] != b[i] {
        a[i] < b[i]
    } else {
        bytes_lt_from(a, b, i + 1)
    }
}

/// Lexicographic order of byte strings, as `Ord` orders `[u8]` and `str`.
pub open spec fn bytes_lt(a: Seq<u8>, b: Seq<u8>) -> bool {
    bytes_lt_from(a, b, 0)
}

proof fn lemma_bytes_lt_from_irreflexive(a: Seq<u8>, i: int)
    requires
        0 <= i,
    ensures
        !bytes_lt_from(a, a, i),
    decreases a.len() - i,
{
    if i < a.len() {
        lemma_bytes_lt_from_irreflexive(a, i + 1);
    }
}

proof fn lemma_bytes_lt_from_transitive(a: Seq<u8>, b: Seq<u8>, c: Seq<u8>, i: int)
    requires
        0 <= i,
        bytes_lt_from(a, b, i),
        bytes_lt_from(b, c, i),
    ensures
        bytes_lt_from(a, c, i),
    decreases a.len() - i,
{
    if i < a.len() && i < b.len() && i < c.len() && a[i] == b[i] && b[i] == c[i] {
        lemma_bytes_lt_from_transitive(a, b, c, i + 1);
    }
}

proof fn lemma_bytes_lt_from_total(a: Seq<u8>, b: Seq<u8>, i: int)
    requires
        0 <= i <= a.len(),
        i <= b.len(),
        forall|k: int| 0 <= k < i ==> a[k] == b[k],
        !bytes_lt_from(a, b, i),
        !bytes_lt_from(b, a, i),
    ensures
        a == b,
    decreases a.len() - i,
{
    if i == a.len() {
        assert(a =~= b);
    } else {
        lemma_bytes_lt_from_total(a, b, i + 1);
    }
}

/// The bytes of a record's file name.
pub open spec fn name_bytes(d: GpsData) -> Seq<u8> {
    encode_utf8(d.file_name@)
}

/// `a` goes strictly before `b` under `mode`.
pub open spec fn key_lt(mode: SortingMode, a: GpsData, b: GpsData) -> bool {
    match mode {
        SortingMode::File => bytes_lt(name_bytes(a), name_bytes(b)),
        SortingMode::GpsDate => a.datetime.spec_before(b.datetime),
        SortingMode::Unsorted => false,
    }
}

/// `key_lt` is a strict weak order: irreflexive, transitive, and what goes
/// before `c` goes before `b` or `b` before `c`.
proof fn lemma_key_lt_weak_order(mode: SortingMode, a: GpsData, b: GpsData, c: GpsData)
    ensures
        !key_lt(mode, a, a),
        key_lt(mode, a, b) && key_lt(mode, b, c) ==> key_lt(mode, a, c),
        key_lt(mode, a, c) ==> key_lt(mode, a, b) || key_lt(mode, b, c),
{
    if mode == SortingMode::File {
        let (x, y, z) = (name_bytes(a), name_bytes(b), name_bytes(c));
        lemma_bytes_lt_from_irreflexive(x, 0);
        if bytes_lt(x, y) && bytes_lt(y, z) {
            lemma_bytes_lt_from_transitive(x, y, z, 0);
        }
        if bytes_lt(x, z) && !bytes_lt(x, y) && !bytes_lt(y, z) {
            if bytes_lt(y, x) {
                lemma_bytes_lt_from_transitive(y, x, z, 0);
            } else {
                lemma_bytes_lt_from_total(x, y, 0);
            }
        }
    }
}

/// Whether `a` goes strictly before `b` under `mode`.
fn record_before(mode: SortingMode, a: &GpsData, b: &GpsData) -> (r: bool)
    ensures
        r == key_lt(mode, *a, *b),
{
    match mode {
        SortingMode::File => name_before(&a.file_name, &b.file_name),
        SortingMode::GpsDate => a.datetime.before(&b.datetime),
        SortingMode::Unsorted => false,
    }
}

/// Whether `a` goes strictly before `b`, compared byte by byte.
fn name_before(a: &String, b: &String) -> (r: bool)
    ensures
        r == bytes_lt(encode_utf8(a@), encode_utf8(b@)),
{
    let x = a.as_str().as_bytes();
    let y = b.as_str().as_bytes();
    let mut i: usize = 0;
    while i < x.len() && i < y.len() && x[i] == y[i]
        invariant
            i <= x@.len(),
            i <= y@.len(),
            bytes_lt_from(x@, y@, 0) == bytes_lt_from(x@, y@, i as int),
        decreases x@.len() - i,
    {
        i += 1;
    }
    if i == x.len() {
        i < y.len()
    } else if i == y.len() {
        false
    } else {
        x[i] < y[i]
    }
}

/// `p` lists each of `0..n` once.
pub open spec fn is_permutation(p: Seq<int>, n: int) -> bool {
    &&& p.len() == n
    &&& forall|k: int| 0 <= k < n ==> 0 <= #[trigger] p[k] < n
    &&& forall|k: int, l: int| 0 <= k < l < n ==> #[trigger] p[k] != #[trigger] p[l]
}

/// Records `a`, from position `i`, and `b`, from position `j`, may stand in
/// this order under `mode`: `a` goes strictly before `b`, or neither goes
/// before the other and `a` came first.
pub open spec fn in_order(mode: SortingMode, a: GpsData, b: GpsData, i: int, j: int) -> bool {
    key_lt(mode, a, b) || (!key_lt(mode, b, a) && i < j)
}

/// `after` holds the records of `before` sorted stably under `mode`: the
/// record at position `k` of `after` is the one at position `p[k]` of
/// `before`, and `after` is ordered by `mode`, ties in their earlier order.
pub open spec fn stably_sorted(
    mode: SortingMode,
    before: Seq<GpsData>,
    after: Seq<GpsData>,
    p: Seq<int>,
) -> bool {
    &&& after.len() == before.len()
    &&& is_permutation(p, before.len() as int)
    &&& forall|k: int| 0 <= k < after.len() ==> #[trigger] after[k] == before[p[k]]
    &&& forall|k: int, l: int|
        0 <= k < l < after.len() ==> in_order(mode, #[trigger] after[k], #[trigger] after[l], p[k], p[l])
}

/// Orders `records` stably under `mode`: by file name, by timestamp, or not
/// at all.
#[verifier::loop_isolation(false)]
pub fn sort_records(records: &mut Vec<GpsData>, mode: SortingMode)
    ensures
        exists|p: Seq<int>| stably_sorted(mode, old(records)@, final(records)@, p),
        mode == SortingMode::Unsorted ==> final(records)@ == old(records)@,
{
    let ghost orig = records@;
    if let SortingMode::Unsorted = mode {
        let ghost id = Seq::new(orig.len(), |k: int| k);
        assert(stably_sorted(mode, orig, records@, id));
        return;
    }
    let mut rest: Vec<GpsData> = Vec::new();
    std::mem::swap(records, &mut rest);
    let n = rest.len();
    let mut out: Vec<GpsData> = Vec::new();
    let ghost mut p: Seq<int> = Seq::empty();
    let mut i: usize = 0;
    while i < n
        invariant
            n == orig.len(),
            i <= n,
            rest@ == orig.skip(i as int),
            out@.len() == i,
            p.len() == i,
            forall|k: int| 0 <= k < i ==> 0 <= #[trigger] p[k] < i,
            forall|k: int, l: int| 0 <= k < l < i ==> #[trigger] p[k] != #[trigger] p[l],
            forall|k: int| 0 <= k < i ==> #[trigger] out@[k] == orig[p[k]],
            forall|k: int, l: int|
                0 <= k < l < i ==> in_order(mode, #[trigger] out@[k], #[trigger] out@[l], p[k], p[l]),
        decreases n - i,
    {
        assert(orig.skip(i as int)[0] == orig[i as int]);
        let x = rest.remove(0);
        assert(rest@ =~= orig.skip(i + 1));
        let mut pos: usize = out.len();
        while pos > 0 && record_before(mode, &x, &out[pos - 1])
            invariant
                pos <= out@.len(),
                forall|m: int| pos <= m < out@.len() ==> key_lt(mode, x, #[trigger] out@[m]),
            decreases pos,
        {
            pos -= 1;
        }
        let ghost o = out@;
        let ghost q = p;
        proof {
            assert forall|k: int| 0 <= k < pos implies !key_lt(mode, x, #[trigger] o[k]) by {
                let last = o[pos - 1];
                lemma_key_lt_weak_order(mode, x, last, o[k]);
                lemma_key_lt_weak_order(mode, o[k], last, o[k]);
                if k < pos - 1 {
                    assert(in_order(mode, o[k], o[pos - 1], q[k], q[pos - 1]));
                }
            }
        }
        out.insert(pos, x);
        proof {
            p = q.insert(pos as int, i as int);
            assert forall|k: int, l: int| 0 <= k < l < i + 1 implies in_order(
                mode,
                #[trigger] out@[k],
                #[trigger] out@[l],
                p[k],
                p[l],
            ) by {
                if l < pos {
                    assert(in_order(mode, o[k], o[l], q[k], q[l]));
                } else if l == pos {
                } else if k == pos {
                    assert(key_lt(mode, x, o[l - 1]));
                } else if k < pos {
                    assert(in_order(mode, o[k], o[l - 1], q[k], q[l - 1]));
                } else {
                    assert(in_order(mode, o[k - 1], o[l - 1], q[k - 1], q[l - 1]));
                }
            }
            assert forall|k: int| 0 <= k < i + 1 implies #[trigger] out@[k] == orig[p[k]] by {
                if k < pos {
                    assert(out@[k] == o[k]);
                } else if k > pos {
                    assert(out@[k] == o[k - 1]);
                }
            }
            assert forall|k: int, l: int| 0 <= k < l < i + 1 implies #[trigger] p[k]
                != #[trigger] p[l] by {
                if k < pos && l > pos {
                    assert(q[k] != q[l - 1]);
                } else if k > pos {
                    assert(q[k - 1] != q[l - 1]);
                }
            }
        }
        i += 1;
    }
    *records = out;
    assert(stably_sorted(mode, orig, records@, p));
}

/// Sorting by file name is stable: of two records that share a file name,
/// the one that stood first before sorting stands first after.
pub proof fn lemma_sort_by_file_name_is_stable(
    before: Seq<GpsData>,
    after: Seq<GpsData>,
    p: Seq<int>,
    k: int,
    l: int,
)
    requires
        stably_sorted(SortingMode::File, before, after, p),
        0 <= k < l < after.len(),
        after[k].file_name@ == after[l].file_name@,
    ensures
        p[k] < p[l],
{
    lemma_key_lt_weak_order(SortingMode::File, after[k], after[k], after[k]);
    assert(in_order(SortingMode::File, after[k], after[l], p[k], p[l]));
}

/// Sorting by timestamp is stable: of two records that share a timestamp,
/// the one that stood first before sorting (in file-arrival order) stands
/// first after.
pub proof fn lemma_sort_by_timestamp_is_stable(
    before: Seq<GpsData>,
    after: Seq<GpsData>,
    p: Seq<int>,
    k: int,
    l: int,
)
    requires
        stably_sorted(SortingMode::GpsDate, before, after, p),
        0 <= k < l < after.len(),
        after[k].datetime == after[l].datetime,
    ensures
        p[k] < p[l],
{
    assert(in_order(SortingMode::GpsDate, after[k], after[l], p[k], p[l]));
}

/// `x` as four bytes, least significant first.
pub open spec fn le_bytes(x: u32) -> Seq<u8> {
    seq![
        (x % 0x100) as u8,
        (x / 0x100 % 0x100) as u8,
        (x / 0x10000 % 0x100) as u8,
        (x / 0x1000000 % 0x100) as u8,
    ]
}

/// The byte that names a latitude hemisphere.
pub open spec fn latitude_hemisphere_byte(h: LatitudeHemisphere) -> u8 {
    match h {
        LatitudeHemisphere::North => 0x4E,
        LatitudeHemisphere::South => 0x53,
    }
}

/// The byte that names a longitude hemisphere.
pub open spec fn longitude_hemisphere_byte(h: LongitudeHemisphere) -> u8 {
    match h {
        LongitudeHemisphere::East => 0x45,
        LongitudeHemisphere::West => 0x57,
    }
}

/// The 60-byte record, with a fix, that holds the fields of `d` (its file
/// name aside); zeros fill the unused bytes.
pub open spec fn record_bytes(d: GpsData) -> Seq<u8> {
    seq![0u8, 0u8, 0u8, 60u8, 0x66u8, 0x72u8, 0x65u8, 0x65u8, 0x47u8, 0x50u8, 0x53u8, 0x20u8]
        + seq![0u8, 0u8, 0u8, 0u8] + le_bytes(d.datetime.hour) + le_bytes(d.datetime.minute)
        + le_bytes(d.datetime.second) + le_bytes((d.datetime.year - 2000) as u32) + le_bytes(
        d.datetime.month,
    ) + le_bytes(d.datetime.day) + seq![
        0x41u8,
        latitude_hemisphere_byte(d.latitude_hemisphere),
        longitude_hemisphere_byte(d.longitude_hemisphere),
        0u8,
    ] + le_bytes(d.latitude) + le_bytes(d.longitude) + le_bytes(d.speed) + le_bytes(d.course)
}

proof fn lemma_le_bytes(x: u32, b: Seq<u8>, at: int)
    requires
        0 <= at,
        at + 4 <= b.len(),
        b.subrange(at, at + 4) == le_bytes(x),
    ensures
        le_u32(b, at) == x,
{
    assert(b[at] == le_bytes(x)[0]);
    assert(b[at + 1] == le_bytes(x)[1]);
    assert(b[at + 2] == le_bytes(x)[2]);
    assert(b[at + 3] == le_bytes(x)[3]);
}

/// A record assembled from the fields of `d`, with a timestamp that exists
/// and a year from 2000 on, passes every check and decodes to exactly those
/// fields.
pub proof fn lemma_record_round_trip(d: GpsData)
    requires
        d.datetime.wf(),
        d.datetime.year >= 2000,
    ensures
        decodes(record_bytes(d)),
        decoded_from(d.file_name@, record_bytes(d), d),
{
    let b = record_bytes(d);
    assert(b.len() == 60);
    assert(b.subrange(4, 8) =~= seq![0x66u8, 0x72u8, 0x65u8, 0x65u8]);
    assert(b.subrange(8, 12) =~= seq![0x47u8, 0x50u8, 0x53u8, 0x20u8]);
    assert(b.subrange(16, 20) =~= le_bytes(d.datetime.hour));
    assert(b.subrange(20, 24) =~= le_bytes(d.datetime.minute));
    assert(b.subrange(24, 28) =~= le_bytes(d.datetime.second));
    assert(b.subrange(28, 32) =~= le_bytes((d.datetime.year - 2000) as u32));
    assert(b.subrange(32, 36) =~= le_bytes(d.datetime.month));
    assert(b.subrange(36, 40) =~= le_bytes(d.datetime.day));
    assert(b.subrange(44, 48) =~= le_bytes(d.latitude));
    assert(b.subrange(48, 52) =~= le_bytes(d.longitude));
    assert(b.subrange(52, 56) =~= le_bytes(d.speed));
    assert(b.subrange(56, 60) =~= le_bytes(d.course));
    lemma_le_bytes(d.datetime.hour, b, 16);
    lemma_le_bytes(d.datetime.minute, b, 20);
    lemma_le_bytes(d.datetime.second, b, 24);
    lemma_le_bytes((d.datetime.year - 2000) as u32, b, 28);
    lemma_le_bytes(d.datetime.month, b, 32);
    lemma_le_bytes(d.datetime.day, b, 36);
    lemma_le_bytes(d.latitude, b, 44);
    lemma_le_bytes(d.longitude, b, 48);
    lemma_le_bytes(d.speed, b, 52);
    lemma_le_bytes(d.course, b, 56);
    assert(b[40] == 0x41);
    assert(b[41] == latitude_hemisphere_byte(d.latitude_hemisphere));
    assert(b[42] == longitude_hemisphere_byte(d.longitude_hemisphere));
    assert(b[0] == 0 && b[1] == 0 && b[2] == 0 && b[3] == 60);
}

} // verus!
