//! What holds of every partition table that is read, said of the bytes of the
//! device.

use crate::bytes::{le_number, le_units, nonzero_units, padded_text, utf16_text};
use crate::gpt::{
    gpt_data, gpt_entries, gpt_entry_fits, gpt_next_entry, gpt_outcome, gpt_part, gpt_table,
};
use crate::guid::{law_nil_bytes, uuid_of_bytes_le};
use crate::mbr::{mbr_data, mbr_outcome, mbr_record, mbr_records, mbr_with};
use crate::part::{part_views, Part, PartView};
use crate::partition_reader::{device_data, device_outcome};
use crate::table::{bytes_at, Found, Progress, TableError};
use vstd::prelude::*;

verus! {

// Numbers.

/// The number in four bytes, the lowest first.
pub open spec fn number4(d: Seq<u8>, a: int) -> int {
    d[a] + 0x100 * d[a + 1] + 0x1_0000 * d[a + 2] + 0x100_0000 * d[a + 3]
}

/// The number in eight bytes, the lowest first.
pub open spec fn number8(d: Seq<u8>, a: int) -> int {
    number4(d, a) + 0x1_0000_0000 * number4(d, a + 4)
}

/// A number of two, four or eight bytes is stored with its lowest byte first.
#[verifier::spinoff_prover]
pub proof fn law_numbers(d: Seq<u8>, a: int)
    requires
        0 <= a,
    ensures
        a + 2 <= d.len() ==> le_number(d.subrange(a, a + 2)) == d[a] + 0x100 * d[a + 1],
        a + 4 <= d.len() ==> le_number(d.subrange(a, a + 4)) == number4(d, a),
        a + 8 <= d.len() ==> le_number(d.subrange(a, a + 8)) == number8(d, a),
{
    reveal_with_fuel(le_number, 9);
    if a + 2 <= d.len() {
        let s = d.subrange(a, a + 2);
        assert(s.skip(1)[0] == d[a + 1]);
        assert(le_number(s) == d[a] + 0x100 * d[a + 1]);
    }
    if a + 4 <= d.len() {
        lemma_number4(d, a);
    }
    if a + 8 <= d.len() {
        lemma_number8(d, a);
    }
}

proof fn lemma_number4(d: Seq<u8>, a: int)
    requires
        0 <= a,
        a + 4 <= d.len(),
    ensures
        le_number(d.subrange(a, a + 4)) == number4(d, a),
        0 <= number4(d, a) < 0x1_0000_0000,
{
    reveal_with_fuel(le_number, 5);
    let s = d.subrange(a, a + 4);
    assert(s[0] == d[a]);
    assert(s.skip(1)[0] == d[a + 1]);
    assert(s.skip(1).skip(1)[0] == d[a + 2]);
    assert(s.skip(1).skip(1).skip(1)[0] == d[a + 3]);
}

proof fn lemma_number8(d: Seq<u8>, a: int)
    requires
        0 <= a,
        a + 8 <= d.len(),
    ensures
        le_number(d.subrange(a, a + 8)) == number8(d, a),
        0 <= number8(d, a) <= u64::MAX,
{
    let s0 = d.subrange(a, a + 8);
    let s1 = s0.skip(1);
    let s2 = s1.skip(1);
    let s3 = s2.skip(1);
    let s4 = s3.skip(1);
    assert(s4 =~= d.subrange(a + 4, a + 8));
    lemma_number4(d, a);
    lemma_number4(d, a + 4);
    assert(s0[0] == d[a] && s1[0] == d[a + 1] && s2[0] == d[a + 2] && s3[0] == d[a + 3]);
    assert(le_number(s3) == d[a + 3] + 256 * le_number(s4));
    assert(le_number(s2) == d[a + 2] + 256 * le_number(s3));
    assert(le_number(s1) == d[a + 1] + 256 * le_number(s2));
    assert(le_number(s0) == d[a] + 256 * le_number(s1));
}

// The master boot record.

/// Whether a partition is the one in record `r` of a master boot record: its
/// number, its first block and its number of blocks, whether the highest bit of
/// the record is set, and the type that stands for its system identifier.
pub open spec fn in_record(d: Seq<u8>, r: int, p: PartView) -> bool {
    let a = 446 + 16 * r;
    &&& p.number == r + 1
    &&& p.start == 512 * number4(d, a + 8)
    &&& p.size == 512 * number4(d, a + 12)
    &&& p.flag_boot == (d[a] >= 0x80)
    &&& p.flag_esp == (d[a + 4] == 0xEF)
    &&& p.type_uuid.value == if d[a + 4] == 0xEF {
        0xC12A7328_F81F_11D2_BA4B_00A0C93EC93Bu128
    } else if d[a + 4] == 0x82 || d[a + 4] == 0x84 {
        0x0FC63DAF_8483_4772_8E79_3D69D8477DE4u128
    } else {
        0xEBD0A0A2_B9E5_4433_87C0_68B6B72699C7u128
    }
    &&& p.part_uuid.value == 0
    &&& p.name.len() == 0
}

/// Whether record `r` of a master boot record is used: it has blocks.
pub open spec fn is_used_record(d: Seq<u8>, r: int) -> bool {
    number4(d, 446 + 16 * r + 12) != 0
}

/// Whether these are the partitions in the first `n` records: each is in a record
/// that is used, each such record has one, and their numbers grow.
pub open spec fn in_records(d: Seq<u8>, n: int, parts: Seq<PartView>) -> bool {
    &&& forall|j: int|
        0 <= j < parts.len() ==> 1 <= (#[trigger] parts[j]).number <= n && is_used_record(
            d,
            parts[j].number - 1,
        ) && in_record(d, parts[j].number - 1, parts[j])
    &&& forall|r: int|
        0 <= r < n && #[trigger] is_used_record(d, r) ==> exists|j: int|
            0 <= j < parts.len() && (#[trigger] parts[j]).number == r + 1
    &&& forall|j: int, k: int| 0 <= j < k < parts.len() ==> parts[j].number < parts[k].number
}

/// Whether record `r` can be read up to its type and says that it protects a GPT.
pub open spec fn protects(d: Seq<u8>, r: int) -> bool {
    d.len() >= 446 + 16 * r + 5 && d[446 + 16 * r + 4] == 0xEE
}

#[verifier::spinoff_prover]
proof fn lemma_record(d: Seq<u8>, i: int, before: Seq<PartView>)
    requires
        0 <= i < 4,
        d.len() >= 446 + 16 * i + 16,
        in_records(d, i, before),
    ensures
        ({
            let head = bytes_at(d, mbr_record(i), 5)->0;
            let extent = bytes_at(d, mbr_record(i) + 8, 8)->0;
            in_records(d, i + 1, mbr_with(before, i, head[0] >= 128, head[4], extent))
        }),
{
    let a = 446 + 16 * i;
    let head = bytes_at(d, mbr_record(i), 5)->0;
    let extent = bytes_at(d, mbr_record(i) + 8, 8)->0;
    assert(head[0] == d[a] && head[4] == d[a + 4]);
    assert(extent.subrange(0, 4) =~= d.subrange(a + 8, a + 12));
    assert(extent.subrange(4, 8) =~= d.subrange(a + 12, a + 16));
    lemma_number4(d, a + 8);
    lemma_number4(d, a + 12);
    let after = mbr_with(before, i, head[0] >= 128, head[4], extent);
    if is_used_record(d, i) {
        assert(after[before.len() as int].number == i + 1);
        assert(in_record(d, i, after[before.len() as int]));
    }
    assert forall|r: int| 0 <= r < i + 1 && #[trigger] is_used_record(d, r) implies exists|j: int|
        0 <= j < after.len() && (#[trigger] after[j]).number == r + 1 by {
        if r < i {
            let j = choose|j: int|
                0 <= j < before.len() && (#[trigger] before[j]).number == r + 1;
            assert(after[j].number == r + 1);
        }
    }
    assert forall|j: int| 0 <= j < after.len() implies 1 <= (#[trigger] after[j]).number <= i + 1
        && is_used_record(d, after[j].number - 1) && in_record(d, after[j].number - 1, after[j]) by {
        if j < before.len() {
            assert(after[j] == before[j]);
        }
    }
}

proof fn lemma_records(d: Seq<u8>, i: int, before: Seq<PartView>)
    requires
        0 <= i <= 4,
        d.len() >= 446 + 16 * i,
        in_records(d, i, before),
        forall|r: int| 0 <= r < i ==> !#[trigger] protects(d, r),
    ensures
        match mbr_records(d, i, before) {
            Found::Value(None) => exists|r: int| 0 <= r < 4 && #[trigger] protects(d, r),
            Found::Value(Some(parts)) => d.len() >= 510 && in_records(d, 4, parts) && forall|
                r: int,
            |
                0 <= r < 4 ==> !#[trigger] protects(d, r),
            Found::Failed(e) => e == TableError::Unreadable && d.len() < 510 && forall|r: int|
                0 <= r < 4 ==> !#[trigger] protects(d, r),
            Found::Overflow => false,
        },
    decreases 4 - i,
{
    if i < 4 {
        let a = 446 + 16 * i;
        if let Some(head) = bytes_at(d, mbr_record(i), 5) {
            assert(head[4] == d[a + 4]);
            if head[4] == 0xEE {
                assert(protects(d, i));
            } else {
                assert(!protects(d, i));
                if let Some(extent) = bytes_at(d, mbr_record(i) + 8, 8) {
                    lemma_record(d, i, before);
                    lemma_records(
                        d,
                        i + 1,
                        mbr_with(before, i, head[0] >= 128, head[4], extent),
                    );
                }
            }
        }
    }
}

/// A master boot record only protects a GPT exactly if one of its records can be
/// read up to its type and says so. Otherwise it can be read exactly if the device
/// has all four records, and then the partitions are those in the records that
/// have blocks.
pub proof fn law_mbr_bytes(d: Seq<u8>)
    ensures
        mbr_data(d) == Found::Value(None::<Seq<PartView>>) <==> exists|r: int|
            0 <= r < 4 && #[trigger] protects(d, r),
        (forall|r: int| 0 <= r < 4 ==> !#[trigger] protects(d, r)) ==> if d.len() >= 510 {
            mbr_data(d) matches Found::Value(Some(parts)) && in_records(d, 4, parts)
        } else {
            mbr_data(d) == Found::<Option<Seq<PartView>>>::Failed(TableError::Unreadable)
        },
{
    if d.len() >= 446 {
        lemma_records(d, 0, Seq::empty());
    } else {
        assert(bytes_at(d, mbr_record(0), 5) is None);
    }
}

// The GUID partition table.

/// Whether the header of a GPT begins with its signature.
pub open spec fn has_signature(d: Seq<u8>) -> bool {
    &&& d.len() >= 0x208
    &&& d[0x200] == 0x45 && d[0x201] == 0x46 && d[0x202] == 0x49 && d[0x203] == 0x20
    &&& d[0x204] == 0x50 && d[0x205] == 0x41 && d[0x206] == 0x52 && d[0x207] == 0x54
}

/// Whether an entry of a GPT has no type.
pub open spec fn is_blank(d: Seq<u8>, a: int) -> bool {
    forall|i: int| 0 <= i < 16 ==> d[#[trigger] (a + i)] == 0
}

/// Whether the place and size of the partition in an entry can be computed, and
/// the entry be stepped over, where entries are said to have this size.
pub open spec fn is_workable(d: Seq<u8>, a: int, entry_size: int) -> bool {
    &&& entry_size <= 128
    &&& number8(d, a + 32) <= number8(d, a + 40)
    &&& 512 * number8(d, a + 32) <= u64::MAX
    &&& 512 * (number8(d, a + 40) - number8(d, a + 32) + 1) <= u64::MAX
}

/// Whether a partition is the one in entry number `i` of a GPT, which begins at
/// `a`: it begins with its first block and ends behind its last.
pub open spec fn in_entry(d: Seq<u8>, a: int, i: int, p: PartView) -> bool {
    &&& p.number == (i + 1) % 256
    &&& p.start == 512 * number8(d, a + 32)
    &&& p.start + p.size == 512 * (number8(d, a + 40) + 1)
    &&& p.type_uuid == uuid_of_bytes_le(d.subrange(a, a + 16))
    &&& p.part_uuid == uuid_of_bytes_le(d.subrange(a + 16, a + 32))
    &&& p.name == padded_text(d.subrange(a + 56, a + 128))
    &&& !p.flag_boot
    &&& p.flag_esp == (p.type_uuid.value == 0xC12A7328_F81F_11D2_BA4B_00A0C93EC93Bu128)
}

/// A walk through the first `n` entries of a GPT: where each begins and where the
/// walk goes on behind them, which of them are used, and the partitions in those.
/// An entry without a type is stepped over by the length of the type alone, one
/// with a type by 256 bytes less the size that entries are said to have.
pub open spec fn is_walk(
    d: Seq<u8>,
    n: int,
    at: Seq<int>,
    used: Seq<int>,
    parts: Seq<PartView>,
) -> bool {
    let entry_size = number4(d, 0x254);
    &&& at.len() == n + 1
    &&& at[0] == 512 * number8(d, 0x248)
    &&& forall|i: int|
        0 <= i < n ==> {
            &&& 0 <= #[trigger] at[i]
            &&& at[i] + 16 <= d.len()
            &&& is_blank(d, at[i]) ==> at[i + 1] == at[i] + 16
            &&& !is_blank(d, at[i]) ==> at[i] + 128 <= d.len() && is_workable(
                d,
                at[i],
                entry_size,
            ) && at[i + 1] == at[i] + 256 - entry_size && used.contains(i)
        }
    &&& used.len() == parts.len()
    &&& forall|j: int|
        0 <= j < used.len() ==> 0 <= #[trigger] used[j] < n && !is_blank(d, at[used[j]])
            && in_entry(d, at[used[j]], used[j], parts[j])
    &&& forall|j: int, k: int| 0 <= j < k < used.len() ==> used[j] < used[k]
}

proof fn lemma_blank(d: Seq<u8>, a: int)
    requires
        0 <= a,
        a + 16 <= d.len(),
    ensures
        uuid_of_bytes_le(d.subrange(a, a + 16)).value == 0 <==> is_blank(d, a),
{
    let b = d.subrange(a, a + 16);
    law_nil_bytes(b);
    if is_blank(d, a) {
        assert forall|i: int| 0 <= i < 16 implies b[i] == 0 by {
            assert(d[a + i] == 0);
        }
    }
    if forall|i: int| 0 <= i < 16 ==> b[i] == 0 {
        assert forall|i: int| 0 <= i < 16 implies d[#[trigger] (a + i)] == 0 by {
            assert(b[i] == d[a + i]);
        }
    }
}

#[verifier::spinoff_prover]
proof fn lemma_entry(d: Seq<u8>, a: int, i: int, entry_size: int)
    requires
        0 <= a,
        a + 128 <= d.len(),
    ensures
        ({
            let body = d.subrange(a + 16, a + 128);
            let p = gpt_part(i, uuid_of_bytes_le(d.subrange(a, a + 16)), body);
            &&& gpt_entry_fits(entry_size, body) <==> is_workable(d, a, entry_size)
            &&& is_workable(d, a, entry_size) ==> in_entry(d, a, i, p) && forall|q: PartView|
                #[trigger] in_entry(d, a, i, q) ==> q == p
        }),
{
    let body = d.subrange(a + 16, a + 128);
    let p = gpt_part(i, uuid_of_bytes_le(d.subrange(a, a + 16)), body);
    assert(body.subrange(16, 24) =~= d.subrange(a + 32, a + 40));
    assert(body.subrange(24, 32) =~= d.subrange(a + 40, a + 48));
    assert(body.subrange(0, 16) =~= d.subrange(a + 16, a + 32));
    assert(body.subrange(40, 112) =~= d.subrange(a + 56, a + 128));
    lemma_number8(d, a + 32);
    lemma_number8(d, a + 40);
    if is_workable(d, a, entry_size) {
        assert(in_entry(d, a, i, p));
        assert forall|q: PartView| #[trigger] in_entry(d, a, i, q) implies q == p by {
            assert(q.number == p.number);
            assert(q.start == p.start);
            assert(q.size == p.size);
        }
    }
}

/// One step of the scan from an entry.
#[verifier::spinoff_prover]
proof fn lemma_scan_step(
    d: Seq<u8>,
    a: int,
    i: int,
    count: int,
    entry_size: int,
    before: Seq<PartView>,
)
    requires
        0 <= a,
        0 <= i < count,
    ensures
        ({
            let found = gpt_entries(d, a, i, count, entry_size, before);
            let p = gpt_part(
                i,
                uuid_of_bytes_le(d.subrange(a, a + 16)),
                d.subrange(a + 16, a + 128),
            );
            if a + 16 > d.len() {
                found == Found::<Seq<PartView>>::Failed(TableError::Unreadable)
            } else if is_blank(d, a) {
                found == gpt_entries(d, a + 16, i + 1, count, entry_size, before)
            } else if a + 128 > d.len() {
                found == Found::<Seq<PartView>>::Failed(TableError::Unreadable)
            } else if !is_workable(d, a, entry_size) {
                found == Found::<Seq<PartView>>::Overflow
            } else {
                found == gpt_entries(
                    d,
                    a + 256 - entry_size,
                    i + 1,
                    count,
                    entry_size,
                    before.push(p),
                )
            }
        }),
{
    if a + 16 <= d.len() {
        lemma_blank(d, a);
        if a + 128 <= d.len() {
            lemma_entry(d, a, i, entry_size);
            assert(bytes_at(d, a + 16, 112)->0 =~= d.subrange(a + 16, a + 128));
            assert(gpt_next_entry(a, entry_size) == a + 256 - entry_size);
        }
    }
}

/// The scan goes on behind a walk with the partitions in it.
#[verifier::spinoff_prover]
proof fn lemma_walked(
    d: Seq<u8>,
    n: int,
    count: int,
    at: Seq<int>,
    used: Seq<int>,
    parts: Seq<PartView>,
)
    requires
        is_walk(d, n, at, used, parts),
        0 <= n <= count,
        d.len() >= 0x258,
    ensures
        gpt_entries(d, at[0], 0, count, number4(d, 0x254), Seq::empty()) == gpt_entries(
            d,
            at[n],
            n,
            count,
            number4(d, 0x254),
            parts,
        ),
        at[n] >= 0,
    decreases n,
{
    let entry_size = number4(d, 0x254);
    if n == 0 {
        if used.len() > 0 {
            assert(used[0] < 0);
        }
        assert(parts =~= Seq::empty());
        lemma_number8(d, 0x248);
    } else {
        let m = n - 1;
        let at0 = at.take(n);
        let a = at[m];
        assert(at[m] >= 0);
        if is_blank(d, a) {
            assert forall|i: int| 0 <= i < m implies {
                &&& 0 <= #[trigger] at0[i]
                &&& at0[i] + 16 <= d.len()
                &&& is_blank(d, at0[i]) ==> at0[i + 1] == at0[i] + 16
                &&& !is_blank(d, at0[i]) ==> at0[i] + 128 <= d.len() && is_workable(
                    d,
                    at0[i],
                    entry_size,
                ) && at0[i + 1] == at0[i] + 256 - entry_size && used.contains(i)
            } by {
                assert(at0[i] == at[i]);
            }
            assert forall|j: int| 0 <= j < used.len() implies 0 <= #[trigger] used[j] < m
                && !is_blank(d, at0[used[j]]) && in_entry(d, at0[used[j]], used[j], parts[j]) by {
                assert(0 <= used[j] < n);
                assert(used[j] != m);
                assert(at0[used[j]] == at[used[j]]);
            }
            assert(is_walk(d, m, at0, used, parts));
            lemma_walked(d, m, count, at0, used, parts);
            lemma_scan_step(d, a, m, count, entry_size, parts);
        } else {
            let last = used.len() - 1;
            assert(used.contains(m));
            let q = choose|q: int| 0 <= q < used.len() && used[q] == m;
            assert(q == last) by {
                if q < last {
                    assert(used[q] < used[last]);
                    assert(used[last] < n);
                }
            }
            let used0 = used.drop_last();
            let parts0 = parts.drop_last();
            assert forall|i: int| 0 <= i < m implies {
                &&& 0 <= #[trigger] at0[i]
                &&& at0[i] + 16 <= d.len()
                &&& is_blank(d, at0[i]) ==> at0[i + 1] == at0[i] + 16
                &&& !is_blank(d, at0[i]) ==> at0[i] + 128 <= d.len() && is_workable(
                    d,
                    at0[i],
                    entry_size,
                ) && at0[i + 1] == at0[i] + 256 - entry_size && used0.contains(i)
            } by {
                assert(at0[i] == at[i]);
                if !is_blank(d, at[i]) {
                    let k = choose|k: int| 0 <= k < used.len() && used[k] == i;
                    assert(used0[k] == i);
                }
            }
            assert forall|j: int| 0 <= j < used0.len() implies 0 <= #[trigger] used0[j] < m
                && !is_blank(d, at0[used0[j]]) && in_entry(
                d,
                at0[used0[j]],
                used0[j],
                parts0[j],
            ) by {
                assert(used0[j] == used[j]);
                assert(used[j] < used[last]);
                assert(at0[used0[j]] == at[used[j]]);
            }
            assert(is_walk(d, m, at0, used0, parts0));
            lemma_walked(d, m, count, at0, used0, parts0);
            lemma_scan_step(d, a, m, count, entry_size, parts0);
            lemma_entry(d, a, m, entry_size);
            lemma_number4(d, 0x254);
            assert(in_entry(d, at[used[last]], used[last], parts[last]));
            assert(parts0.push(parts[last]) =~= parts);
        }
    }
}

/// Whether the walk through the first `i` entries comes to an entry that cannot be
/// read.
pub open spec fn breaks_off(d: Seq<u8>, i: int) -> bool {
    exists|at: Seq<int>, used: Seq<int>, parts: Seq<PartView>| #[trigger]
        is_walk(d, i, at, used, parts) && (at[i] + 16 > d.len() || !is_blank(d, at[i]) && at[i] + 128
            > d.len())
}

/// Whether the walk through the first `i` entries comes to an entry that can be
/// read and not worked with.
pub open spec fn overflows(d: Seq<u8>, i: int) -> bool {
    exists|at: Seq<int>, used: Seq<int>, parts: Seq<PartView>| #[trigger]
        is_walk(d, i, at, used, parts) && at[i] + 128 <= d.len() && !is_blank(d, at[i])
            && !is_workable(d, at[i], number4(d, 0x254))
}

/// Whether these are the partitions in the first `n` entries of a GPT.
pub open spec fn in_entries(d: Seq<u8>, n: int, parts: Seq<PartView>) -> bool {
    exists|at: Seq<int>, used: Seq<int>| #[trigger] is_walk(d, n, at, used, parts)
}

/// What comes of the scan behind a walk.
#[verifier::spinoff_prover]
proof fn lemma_scan_behind(
    d: Seq<u8>,
    n: int,
    count: int,
    at: Seq<int>,
    used: Seq<int>,
    parts: Seq<PartView>,
)
    requires
        is_walk(d, n, at, used, parts),
        0 <= n <= count,
        d.len() >= 0x258,
        at[n] >= 0,
    ensures
        match gpt_entries(d, at[n], n, count, number4(d, 0x254), parts) {
            Found::Value(found) => in_entries(d, count, found),
            Found::Failed(e) => e == TableError::Unreadable && exists|i: int|
                0 <= i < count && #[trigger] breaks_off(d, i),
            Found::Overflow => exists|i: int| 0 <= i < count && #[trigger] overflows(d, i),
        },
    decreases count - n,
{
    let entry_size = number4(d, 0x254);
    if n < count {
        let a = at[n];
        lemma_scan_step(d, a, n, count, entry_size, parts);
        if a + 16 > d.len() {
            assert(breaks_off(d, n));
        } else if is_blank(d, a) {
            let at1 = at.push(a + 16);
            assert forall|i: int| 0 <= i < n + 1 implies {
                &&& 0 <= #[trigger] at1[i]
                &&& at1[i] + 16 <= d.len()
                &&& is_blank(d, at1[i]) ==> at1[i + 1] == at1[i] + 16
                &&& !is_blank(d, at1[i]) ==> at1[i] + 128 <= d.len() && is_workable(
                    d,
                    at1[i],
                    entry_size,
                ) && at1[i + 1] == at1[i] + 256 - entry_size && used.contains(i)
            } by {
                assert(at1[i] == at[i]);
            }
            assert forall|j: int| 0 <= j < used.len() implies 0 <= #[trigger] used[j] < n + 1
                && !is_blank(d, at1[used[j]]) && in_entry(d, at1[used[j]], used[j], parts[j]) by {
                assert(at1[used[j]] == at[used[j]]);
            }
            assert(is_walk(d, n + 1, at1, used, parts));
            lemma_scan_behind(d, n + 1, count, at1, used, parts);
        } else if a + 128 > d.len() {
            assert(breaks_off(d, n));
        } else if !is_workable(d, a, entry_size) {
            assert(overflows(d, n));
        } else {
            let p = gpt_part(
                n,
                uuid_of_bytes_le(d.subrange(a, a + 16)),
                d.subrange(a + 16, a + 128),
            );
            lemma_entry(d, a, n, entry_size);
            lemma_number4(d, 0x254);
            let at1 = at.push(a + 256 - entry_size);
            let used1 = used.push(n);
            let parts1 = parts.push(p);
            assert(used1[used.len() as int] == n);
            assert forall|i: int| 0 <= i < n + 1 implies {
                &&& 0 <= #[trigger] at1[i]
                &&& at1[i] + 16 <= d.len()
                &&& is_blank(d, at1[i]) ==> at1[i + 1] == at1[i] + 16
                &&& !is_blank(d, at1[i]) ==> at1[i] + 128 <= d.len() && is_workable(
                    d,
                    at1[i],
                    entry_size,
                ) && at1[i + 1] == at1[i] + 256 - entry_size && used1.contains(i)
            } by {
                assert(at1[i] == at[i]);
                if i < n && !is_blank(d, at[i]) {
                    let k = choose|k: int| 0 <= k < used.len() && used[k] == i;
                    assert(used1[k] == i);
                }
            }
            assert forall|j: int| 0 <= j < used1.len() implies 0 <= #[trigger] used1[j] < n + 1
                && !is_blank(d, at1[used1[j]]) && in_entry(
                d,
                at1[used1[j]],
                used1[j],
                parts1[j],
            ) by {
                if j < used.len() {
                    assert(used1[j] == used[j]);
                    assert(at1[used1[j]] == at[used[j]]);
                }
            }
            assert(is_walk(d, n + 1, at1, used1, parts1));
            lemma_scan_behind(d, n + 1, count, at1, used1, parts1);
        }
    }
}

/// Whether a device has a GPT whose header can be read and whose entries have a
/// place that can be computed.
pub open spec fn has_table(d: Seq<u8>) -> bool {
    has_signature(d) && d.len() >= 0x258 && 512 * number8(d, 0x248) <= u64::MAX
}

proof fn lemma_table(d: Seq<u8>)
    requires
        has_table(d),
    ensures
        gpt_data(d) == gpt_entries(
            d,
            512 * number8(d, 0x248),
            0,
            number4(d, 0x250),
            number4(d, 0x254),
            Seq::empty(),
        ),
        is_walk(d, 0, seq![512 * number8(d, 0x248)], Seq::empty(), Seq::empty()),
        number8(d, 0x248) >= 0,
        number4(d, 0x250) >= 0,
{
    let signature = bytes_at(d, 0x200, 8)->0;
    assert(signature =~= seq![0x45u8, 0x46, 0x49, 0x20, 0x50, 0x41, 0x52, 0x54]);
    let header = bytes_at(d, 0x248, 16)->0;
    assert(header.subrange(0, 8) =~= d.subrange(0x248, 0x250));
    assert(header.subrange(8, 12) =~= d.subrange(0x250, 0x254));
    assert(header.subrange(12, 16) =~= d.subrange(0x254, 0x258));
    lemma_number8(d, 0x248);
    lemma_number4(d, 0x250);
    lemma_number4(d, 0x254);
    assert(gpt_data(d) == gpt_table(d));
}

/// The partitions of a device with a GPT are those in its entries: each begins
/// with the first block that its entry gives, ends behind the last, and has the
/// type, the identifier and the name in the entry.
pub proof fn law_gpt_bytes(d: Seq<u8>, parts: Seq<PartView>)
    requires
        has_table(d),
    ensures
        gpt_data(d) == Found::Value(parts) <==> in_entries(d, number4(d, 0x250), parts),
{
    let count = number4(d, 0x250);
    lemma_table(d);
    lemma_scan_behind(
        d,
        0,
        count,
        seq![512 * number8(d, 0x248)],
        Seq::empty(),
        Seq::empty(),
    );
    if in_entries(d, count, parts) {
        let (at, used) = choose|at: Seq<int>, used: Seq<int>| #[trigger]
            is_walk(d, count, at, used, parts);
        lemma_walked(d, count, count, at, used, parts);
    }
}

/// A device has no GPT exactly if it has no signature of one. A GPT cannot be read
/// exactly if its header cannot, or the walk through its entries breaks off; and
/// it cannot be worked with exactly if the place of its entries is too large, or
/// the walk comes to an entry that cannot be.
pub proof fn law_gpt_failures(d: Seq<u8>)
    ensures
        gpt_data(d) == Found::<Seq<PartView>>::Failed(TableError::NotGpt) <==> !has_signature(d),
        has_signature(d) && d.len() < 0x258 ==> gpt_data(d) == Found::<Seq<PartView>>::Failed(
            TableError::Unreadable,
        ),
        has_signature(d) && d.len() >= 0x258 && 512 * number8(d, 0x248) > u64::MAX ==> gpt_data(d)
            == Found::<Seq<PartView>>::Overflow,
        has_table(d) ==> (gpt_data(d) == Found::<Seq<PartView>>::Failed(TableError::Unreadable)
            <==> exists|i: int| 0 <= i < number4(d, 0x250) && #[trigger] breaks_off(d, i)),
        has_table(d) ==> (gpt_data(d) == Found::<Seq<PartView>>::Overflow <==> exists|i: int|
            0 <= i < number4(d, 0x250) && #[trigger] overflows(d, i)),
{
    if d.len() >= 0x208 {
        let signature = bytes_at(d, 0x200, 8)->0;
        let expected = seq![0x45u8, 0x46, 0x49, 0x20, 0x50, 0x41, 0x52, 0x54];
        if has_signature(d) {
            assert(signature =~= expected);
        } else if signature == expected {
            assert(d[0x200] == signature[0] && d[0x201] == signature[1] && d[0x202] == signature[2]
                && d[0x203] == signature[3] && d[0x204] == signature[4] && d[0x205] == signature[5]
                && d[0x206] == signature[6] && d[0x207] == signature[7]);
        }
    }
    if has_signature(d) && d.len() >= 0x258 {
        let header = bytes_at(d, 0x248, 16)->0;
        assert(header.subrange(0, 8) =~= d.subrange(0x248, 0x250));
        lemma_number8(d, 0x248);
    }
    if has_table(d) {
        let count = number4(d, 0x250);
        lemma_table(d);
        lemma_scan_behind(
            d,
            0,
            count,
            seq![512 * number8(d, 0x248)],
            Seq::empty(),
            Seq::empty(),
        );
        if exists|i: int| 0 <= i < count && #[trigger] breaks_off(d, i) {
            let i = choose|i: int| 0 <= i < count && #[trigger] breaks_off(d, i);
            let (at, used, parts) = choose|at: Seq<int>, used: Seq<int>, parts: Seq<PartView>|
                #[trigger]
                is_walk(d, i, at, used, parts) && (at[i] + 16 > d.len() || !is_blank(d, at[i])
                    && at[i] + 128 > d.len());
            lemma_walked(d, i, count, at, used, parts);
            lemma_scan_step(d, at[i], i, count, number4(d, 0x254), parts);
        }
        if exists|i: int| 0 <= i < count && #[trigger] overflows(d, i) {
            let i = choose|i: int| 0 <= i < count && #[trigger] overflows(d, i);
            let (at, used, parts) = choose|at: Seq<int>, used: Seq<int>, parts: Seq<PartView>|
                #[trigger]
                is_walk(d, i, at, used, parts) && at[i] + 128 <= d.len() && !is_blank(d, at[i])
                    && !is_workable(d, at[i], number4(d, 0x254));
            lemma_walked(d, i, count, at, used, parts);
            lemma_scan_step(d, at[i], i, count, number4(d, 0x254), parts);
        }
    }
}

// Devices.

/// The partitions of a device are those in its master boot record, and those in
/// its GPT where the record only protects one; where the record cannot be read, the
/// device cannot.
pub proof fn law_device_tables(d: Seq<u8>)
    ensures
        mbr_data(d) matches Found::Value(Some(parts)) ==> device_data(d) == Found::Value(parts),
        mbr_data(d) == Found::Value(None::<Seq<PartView>>) ==> device_data(d) == gpt_data(d),
        mbr_data(d) is Failed ==> device_data(d) == Found::<Seq<PartView>>::Failed(
            TableError::Unreadable,
        ),
{
    law_mbr_bytes(d);
}

/// Bytes of a device are at hand exactly if it has them all, and none are always at
/// hand; what a reader has found, or why it has not, is what it says.
pub proof fn law_replies(d: Seq<u8>, offset: int, len: int, parts: Vec<Part>, e: TableError)
    requires
        0 <= offset,
        0 <= len,
    ensures
        len == 0 ==> bytes_at(d, offset, len) == Some(Seq::<u8>::empty()),
        0 < len && offset + len <= d.len() ==> bytes_at(d, offset, len) == Some(
            d.subrange(offset, offset + len),
        ),
        0 < len && offset + len > d.len() ==> bytes_at(d, offset, len) is None,
        mbr_outcome(Progress::Done(Some(parts)), d) == Found::Value(Some(part_views(parts@))),
        mbr_outcome(Progress::Done(None), d) == Found::Value(None::<Seq<PartView>>),
        mbr_outcome(Progress::Failed(e), d) == Found::<Option<Seq<PartView>>>::Failed(e),
        gpt_outcome(Progress::Done(parts), d) == Found::Value(part_views(parts@)),
        gpt_outcome(Progress::Failed(e), d) == Found::<Seq<PartView>>::Failed(e),
        gpt_outcome(Progress::Overflow, d) == Found::<Seq<PartView>>::Overflow,
        device_outcome(Progress::Done(parts), d) == Found::Value(part_views(parts@)),
        device_outcome(Progress::Failed(e), d) == Found::<Seq<PartView>>::Failed(e),
        device_outcome(Progress::Overflow, d) == Found::<Seq<PartView>>::Overflow,
{
}

// Names.

/// A name is stored in units of two bytes, the lower one first.
pub proof fn law_units_of_names(b: Seq<u8>)
    ensures
        le_units(b).len() == b.len() / 2,
        forall|i: int|
            0 <= i < b.len() / 2 ==> #[trigger] le_units(b)[i] == b[2 * i] + 0x100 * b[2 * i + 1],
{
    assert forall|i: int| 0 <= i < b.len() / 2 implies #[trigger] le_units(b)[i] == b[2 * i] + 0x100
        * b[2 * i + 1] by {
        law_numbers(b, 2 * i);
    }
}

/// Of the units of a name those that are zero are left out, wherever they stand,
/// and the others are kept in order.
pub proof fn law_zero_units(a: Seq<u16>, u: u16, b: Seq<u16>)
    ensures
        nonzero_units(Seq::empty()) == Seq::<u16>::empty(),
        nonzero_units(a + seq![u] + b) == nonzero_units(a) + (if u == 0 {
            Seq::empty()
        } else {
            seq![u]
        }) + nonzero_units(b),
{
    reveal_with_fuel(Seq::filter, 2);
    let keep = |u: u16| u != 0;
    Seq::filter_distributes_over_add(a + seq![u], b, keep);
    Seq::filter_distributes_over_add(a, seq![u], keep);
    assert(seq![u].drop_last() =~= Seq::empty());
    assert(seq![u].filter(keep) =~= if u == 0 {
        Seq::empty()
    } else {
        seq![u]
    });
}

/// Whether a unit is a character by itself and no padding.
pub open spec fn is_plain_unit(u: u16) -> bool {
    u != 0 && !(0xD800 <= u <= 0xDFFF)
}

proof fn lemma_plain_text(units: Seq<u16>)
    requires
        forall|i: int| 0 <= i < units.len() ==> is_plain_unit(#[trigger] units[i]),
    ensures
        utf16_text(units) == Some(Seq::new(units.len(), |i: int| units[i] as char)),
    decreases units.len(),
{
    if units.len() > 0 {
        let rest = units.skip(1);
        assert forall|i: int| 0 <= i < rest.len() implies is_plain_unit(#[trigger] rest[i]) by {
            assert(rest[i] == units[i + 1]);
        }
        lemma_plain_text(rest);
        assert(is_plain_unit(units[0]));
        assert(utf16_text(units)->0 =~= Seq::new(units.len(), |i: int| units[i] as char));
    } else {
        assert(Seq::new(units.len(), |i: int| units[i] as char) =~= Seq::empty());
    }
}

proof fn lemma_keep_plain(units: Seq<u16>, n: int)
    requires
        0 <= n <= units.len(),
        forall|i: int| 0 <= i < n ==> is_plain_unit(#[trigger] units[i]),
        forall|i: int| n <= i < units.len() ==> #[trigger] units[i] == 0,
    ensures
        nonzero_units(units) == units.take(n),
    decreases units.len(),
{
    reveal(Seq::filter);
    if units.len() > 0 {
        let before = units.drop_last();
        if n == units.len() {
            lemma_keep_plain(before, n - 1);
            assert(before.take(n - 1) =~= before);
            assert(is_plain_unit(units[n - 1]));
            assert(nonzero_units(units) =~= units.take(n));
        } else {
            lemma_keep_plain(before, n);
            assert(before.take(n) =~= units.take(n));
            assert(units[units.len() - 1] == 0);
        }
    } else {
        assert(units.take(n) =~= Seq::empty());
    }
}

/// A name whose characters each take one unit is read as these characters, from
/// a field that is filled up with zeros behind them.
pub proof fn law_plain_names(b: Seq<u8>, n: int)
    requires
        b.len() % 2 == 0,
        0 <= 2 * n <= b.len(),
        forall|i: int|
            0 <= i < n ==> is_plain_unit((#[trigger] b[2 * i] + 0x100 * b[2 * i + 1]) as u16),
        forall|i: int| 2 * n <= i < b.len() ==> #[trigger] b[i] == 0,
    ensures
        padded_text(b).len() == n,
        forall|i: int|
            0 <= i < n ==> #[trigger] padded_text(b)[i] as int == b[2 * i] + 0x100 * b[2 * i + 1],
{
    let units = le_units(b);
    law_units_of_names(b);
    assert forall|i: int| 0 <= i < n implies is_plain_unit(#[trigger] units[i]) by {
        assert(is_plain_unit((b[2 * i] + 0x100 * b[2 * i + 1]) as u16));
    }
    assert forall|i: int| n <= i < units.len() implies #[trigger] units[i] == 0 by {
        assert(b[2 * i] == 0 && b[2 * i + 1] == 0);
    }
    lemma_keep_plain(units, n);
    let kept = units.take(n);
    assert forall|i: int| 0 <= i < kept.len() implies is_plain_unit(#[trigger] kept[i]) by {
        assert(kept[i] == units[i]);
    }
    lemma_plain_text(kept);
    assert forall|i: int| 0 <= i < n implies #[trigger] padded_text(b)[i] as int == b[2 * i] + 0x100
        * b[2 * i + 1] by {
        assert(padded_text(b)[i] == kept[i] as char);
        assert(is_plain_unit(kept[i]));
    }
}

/// A field whose units that are not zero encode no text gives an empty name.
pub proof fn law_names_that_are_no_text(b: Seq<u8>)
    ensures
        utf16_text(nonzero_units(le_units(b))) is None ==> padded_text(b).len() == 0,
        utf16_text(nonzero_units(le_units(b))) matches Some(text) ==> padded_text(b) == text,
{
}

} // verus!
