use crate::error::GbamError;
use crate::fields::Fields;
use crate::reader::{lemma_same_reads, Reader};
use crate::record::{FieldValue, GbamRecord};
use vstd::prelude::*;

verus! {

/// The read is paired in sequencing.
pub const BAM_FPAIRED: u16 = 1;

/// The read is mapped in a proper pair.
pub const BAM_FPROPER_PAIR: u16 = 2;

/// The read itself is unmapped.
pub const BAM_FUNMAP: u16 = 4;

/// The mate is unmapped.
pub const BAM_FMUNMAP: u16 = 8;

/// The read is the first of its pair.
pub const BAM_FREAD1: u16 = 64;

/// The read is the second of its pair.
pub const BAM_FREAD2: u16 = 128;

/// The alignment is not primary.
pub const BAM_FSECONDARY: u16 = 256;

/// The read failed quality control.
pub const BAM_FQCFAIL: u16 = 512;

/// The read is an optical or PCR duplicate.
pub const BAM_FDUP: u16 = 1024;

/// The alignment is supplementary.
pub const BAM_FSUPPLEMENTARY: u16 = 2048;

/// Reads of mapping quality at least this count as mapped well to another
/// chromosome.
pub const HIGH_MAPQ: u8 = 5;

/// What the statistics look at in one record.
#[derive(Clone, Copy, Debug, Default, PartialEq, Eq)]
pub struct Bundle {
    pub refid: i32,
    pub next_ref_id: i32,
    pub flag: u16,
    pub mapq: u8,
}

/// The sixteen categories that are counted.
#[derive(Clone, Copy, Debug, PartialEq, Eq, Structural)]
pub enum Counter {
    Reads,
    Primary,
    Secondary,
    Supplementary,
    Duplicates,
    PrimaryDuplicates,
    Mapped,
    PrimaryMapped,
    Paired,
    Read1,
    Read2,
    ProperlyPaired,
    BothMapped,
    Singletons,
    DifferentChr,
    DifferentChrHighMapq,
}

/// The counts, each split in two: at index 0 the reads that passed quality
/// control, at index 1 those that failed it.
#[derive(Clone, Copy, Debug, Default, PartialEq, Eq)]
pub struct Stats {
    pub n_reads: [i64; 2],
    pub n_mapped: [i64; 2],
    pub n_pair_all: [i64; 2],
    pub n_pair_map: [i64; 2],
    pub n_pair_good: [i64; 2],
    pub n_sgltn: [i64; 2],
    pub n_read1: [i64; 2],
    pub n_read2: [i64; 2],
    pub n_dup: [i64; 2],
    pub n_diffchr: [i64; 2],
    pub n_diffhigh: [i64; 2],
    pub n_secondary: [i64; 2],
    pub n_supp: [i64; 2],
    pub n_primary: [i64; 2],
    pub n_pmapped: [i64; 2],
    pub n_pdup: [i64; 2],
}

/// The flag has the bit set.
pub open spec fn flag_set(flag: u16, bit: u16) -> bool {
    flag & bit != 0
}

/// The half of the counts that a record goes to: 1 where it failed quality
/// control, else 0.
pub open spec fn qc_index(b: Bundle) -> int {
    if flag_set(b.flag, BAM_FQCFAIL) {
        1
    } else {
        0
    }
}

/// The record is a primary alignment: neither secondary nor supplementary.
pub open spec fn is_primary(b: Bundle) -> bool {
    !flag_set(b.flag, BAM_FSECONDARY) && !flag_set(b.flag, BAM_FSUPPLEMENTARY)
}

/// The record is a primary alignment of a paired read.
pub open spec fn is_paired(b: Bundle) -> bool {
    is_primary(b) && flag_set(b.flag, BAM_FPAIRED)
}

/// The record is a primary alignment of a paired read, mapped and with its
/// mate mapped.
pub open spec fn both_mapped(b: Bundle) -> bool {
    is_paired(b) && !flag_set(b.flag, BAM_FUNMAP) && !flag_set(b.flag, BAM_FMUNMAP)
}

/// The record counts in the category.
pub open spec fn counts(cat: Counter, b: Bundle) -> bool {
    match cat {
        Counter::Reads => true,
        Counter::Primary => is_primary(b),
        Counter::Secondary => flag_set(b.flag, BAM_FSECONDARY),
        Counter::Supplementary => !flag_set(b.flag, BAM_FSECONDARY) && flag_set(b.flag, BAM_FSUPPLEMENTARY),
        Counter::Duplicates => flag_set(b.flag, BAM_FDUP),
        Counter::PrimaryDuplicates => is_primary(b) && flag_set(b.flag, BAM_FDUP),
        Counter::Mapped => !flag_set(b.flag, BAM_FUNMAP),
        Counter::PrimaryMapped => is_primary(b) && !flag_set(b.flag, BAM_FUNMAP),
        Counter::Paired => is_paired(b),
        Counter::Read1 => is_paired(b) && flag_set(b.flag, BAM_FREAD1),
        Counter::Read2 => is_paired(b) && flag_set(b.flag, BAM_FREAD2),
        Counter::ProperlyPaired => is_paired(b) && flag_set(b.flag, BAM_FPROPER_PAIR) && !flag_set(
            b.flag,
            BAM_FUNMAP,
        ),
        Counter::BothMapped => both_mapped(b),
        Counter::Singletons => is_paired(b) && flag_set(b.flag, BAM_FMUNMAP) && !flag_set(
            b.flag,
            BAM_FUNMAP,
        ),
        Counter::DifferentChr => both_mapped(b) && b.next_ref_id != b.refid,
        Counter::DifferentChrHighMapq => both_mapped(b) && b.next_ref_id != b.refid && b.mapq
            >= HIGH_MAPQ,
    }
}

/// What one record adds to the count of a category in half `w`.
pub open spec fn hit(b: Bundle, cat: Counter, w: int) -> int {
    if qc_index(b) == w && counts(cat, b) {
        1
    } else {
        0
    }
}

/// The number of records of `s` that count in the category in half `w`.
pub open spec fn tally(s: Seq<Bundle>, cat: Counter, w: int) -> int
    decreases s.len(),
{
    if s.len() == 0 {
        0
    } else {
        tally(s.drop_last(), cat, w) + hit(s.last(), cat, w)
    }
}

impl Stats {
    /// The two counts of a category.
    pub open spec fn get(self, cat: Counter) -> [i64; 2] {
        match cat {
            Counter::Reads => self.n_reads,
            Counter::Primary => self.n_primary,
            Counter::Secondary => self.n_secondary,
            Counter::Supplementary => self.n_supp,
            Counter::Duplicates => self.n_dup,
            Counter::PrimaryDuplicates => self.n_pdup,
            Counter::Mapped => self.n_mapped,
            Counter::PrimaryMapped => self.n_pmapped,
            Counter::Paired => self.n_pair_all,
            Counter::Read1 => self.n_read1,
            Counter::Read2 => self.n_read2,
            Counter::ProperlyPaired => self.n_pair_good,
            Counter::BothMapped => self.n_pair_map,
            Counter::Singletons => self.n_sgltn,
            Counter::DifferentChr => self.n_diffchr,
            Counter::DifferentChrHighMapq => self.n_diffhigh,
        }
    }

    /// The counts are those of the records `s`.
    pub open spec fn counts_of(self, s: Seq<Bundle>) -> bool {
        forall|cat: Counter, w: int| 0 <= w < 2 ==> #[trigger] self.get(cat)@[w] == tally(s, cat, w)
    }

    /// All counts zero.
    pub fn new() -> (s: Self)
        ensures
            s.counts_of(Seq::<Bundle>::empty()),
    {
        Stats {
            n_reads: [0, 0],
            n_mapped: [0, 0],
            n_pair_all: [0, 0],
            n_pair_map: [0, 0],
            n_pair_good: [0, 0],
            n_sgltn: [0, 0],
            n_read1: [0, 0],
            n_read2: [0, 0],
            n_dup: [0, 0],
            n_diffchr: [0, 0],
            n_diffhigh: [0, 0],
            n_secondary: [0, 0],
            n_supp: [0, 0],
            n_primary: [0, 0],
            n_pmapped: [0, 0],
            n_pdup: [0, 0],
        }
    }
}

/// The counts of a category in `after` are those in `before` plus what the
/// record adds.
pub open spec fn stepped(before: Stats, after: Stats, b: Bundle, cat: Counter) -> bool {
    &&& after.get(cat)@[0] == before.get(cat)@[0] + hit(b, cat, 0)
    &&& after.get(cat)@[1] == before.get(cat)@[1] + hit(b, cat, 1)
}

proof fn lemma_stepped_all(before: Stats, after: Stats, b: Bundle)
    requires
        stepped(before, after, b, Counter::Reads),
        stepped(before, after, b, Counter::Primary),
        stepped(before, after, b, Counter::Secondary),
        stepped(before, after, b, Counter::Supplementary),
        stepped(before, after, b, Counter::Duplicates),
        stepped(before, after, b, Counter::PrimaryDuplicates),
        stepped(before, after, b, Counter::Mapped),
        stepped(before, after, b, Counter::PrimaryMapped),
        stepped(before, after, b, Counter::Paired),
        stepped(before, after, b, Counter::Read1),
        stepped(before, after, b, Counter::Read2),
        stepped(before, after, b, Counter::ProperlyPaired),
        stepped(before, after, b, Counter::BothMapped),
        stepped(before, after, b, Counter::Singletons),
        stepped(before, after, b, Counter::DifferentChr),
        stepped(before, after, b, Counter::DifferentChrHighMapq),
    ensures
        forall|cat: Counter| #[trigger] stepped(before, after, b, cat),
{
    assert forall|cat: Counter| #[trigger] stepped(before, after, b, cat) by {
        match cat {
            Counter::Reads => {},
            Counter::Primary => {},
            Counter::Secondary => {},
            Counter::Supplementary => {},
            Counter::Duplicates => {},
            Counter::PrimaryDuplicates => {},
            Counter::Mapped => {},
            Counter::PrimaryMapped => {},
            Counter::Paired => {},
            Counter::Read1 => {},
            Counter::Read2 => {},
            Counter::ProperlyPaired => {},
            Counter::BothMapped => {},
            Counter::Singletons => {},
            Counter::DifferentChr => {},
            Counter::DifferentChrHighMapq => {},
        }
    }
}

/// Adds one to the count in half `w` where `cond` holds.
fn bump(counter: &mut [i64; 2], w: usize, cond: bool)
    requires
        w < 2,
        old(counter)@[w as int] < i64::MAX,
    ensures
        final(counter)@[w as int] == old(counter)@[w as int] + (if cond {
            1int
        } else {
            0int
        }),
        final(counter)@[1 - w] == old(counter)@[1 - w],
{
    if cond {
        counter[w] += 1;
    }
}

/// Counts one record: every category that the record counts in grows by one
/// in the half that the record's quality-control flag selects.
pub fn collect(rec: &Bundle, stats: &mut Stats)
    requires
        forall|cat: Counter, w: int| 0 <= w < 2 ==> #[trigger] old(stats).get(cat)@[w] < i64::MAX,
    ensures
        forall|cat: Counter| #[trigger] stepped(*old(stats), *final(stats), *rec, cat),
{
    let flag: u16 = rec.flag;
    let w: usize = if flag & BAM_FQCFAIL != 0 {
        1
    } else {
        0
    };
    let secondary = flag & BAM_FSECONDARY != 0;
    let supplementary = !secondary && flag & BAM_FSUPPLEMENTARY != 0;
    let primary = !secondary && !supplementary;
    let paired = primary && flag & BAM_FPAIRED != 0;
    let mapped = flag & BAM_FUNMAP == 0;
    let mate_mapped = flag & BAM_FMUNMAP == 0;
    let duplicate = flag & BAM_FDUP != 0;
    let both = paired && mapped && mate_mapped;
    let different = both && rec.next_ref_id != rec.refid;
    proof {
        assert(old(stats).get(Counter::Reads)@[w as int] < i64::MAX);
        assert(old(stats).get(Counter::Primary)@[w as int] < i64::MAX);
        assert(old(stats).get(Counter::Secondary)@[w as int] < i64::MAX);
        assert(old(stats).get(Counter::Supplementary)@[w as int] < i64::MAX);
        assert(old(stats).get(Counter::Duplicates)@[w as int] < i64::MAX);
        assert(old(stats).get(Counter::PrimaryDuplicates)@[w as int] < i64::MAX);
        assert(old(stats).get(Counter::Mapped)@[w as int] < i64::MAX);
        assert(old(stats).get(Counter::PrimaryMapped)@[w as int] < i64::MAX);
        assert(old(stats).get(Counter::Paired)@[w as int] < i64::MAX);
        assert(old(stats).get(Counter::Read1)@[w as int] < i64::MAX);
        assert(old(stats).get(Counter::Read2)@[w as int] < i64::MAX);
        assert(old(stats).get(Counter::ProperlyPaired)@[w as int] < i64::MAX);
        assert(old(stats).get(Counter::BothMapped)@[w as int] < i64::MAX);
        assert(old(stats).get(Counter::Singletons)@[w as int] < i64::MAX);
        assert(old(stats).get(Counter::DifferentChr)@[w as int] < i64::MAX);
        assert(old(stats).get(Counter::DifferentChrHighMapq)@[w as int] < i64::MAX);
    }
    bump(&mut stats.n_reads, w, true);
    bump(&mut stats.n_secondary, w, secondary);
    bump(&mut stats.n_supp, w, supplementary);
    bump(&mut stats.n_primary, w, primary);
    bump(&mut stats.n_pair_all, w, paired);
    bump(&mut stats.n_pair_good, w, paired && flag & BAM_FPROPER_PAIR != 0 && mapped);
    bump(&mut stats.n_read1, w, paired && flag & BAM_FREAD1 != 0);
    bump(&mut stats.n_read2, w, paired && flag & BAM_FREAD2 != 0);
    bump(&mut stats.n_sgltn, w, paired && !mate_mapped && mapped);
    bump(&mut stats.n_pair_map, w, both);
    bump(&mut stats.n_diffchr, w, different);
    bump(&mut stats.n_diffhigh, w, different && rec.mapq >= HIGH_MAPQ);
    bump(&mut stats.n_pmapped, w, primary && mapped);
    bump(&mut stats.n_pdup, w, primary && duplicate);
    bump(&mut stats.n_mapped, w, mapped);
    bump(&mut stats.n_dup, w, duplicate);
    proof {
        let before = *old(stats);
        let after = *stats;
        lemma_stepped_all(before, after, *rec);
    }
}

/// How many records the statistics read from each column at a time.
pub const BUF_SIZE: usize = 1_000_000;

/// The statistics read this field.
pub open spec fn is_stat_field(field: Fields) -> bool {
    field == Fields::RefID || field == Fields::NextRefID || field == Fields::Flags || field
        == Fields::Mapq
}

/// The bundle `b` with the attribute of `field` replaced by `v`.
pub open spec fn with_value(b: Bundle, field: Fields, v: FieldValue) -> Bundle {
    match field {
        Fields::RefID => Bundle { refid: v.signed(), ..b },
        Fields::NextRefID => Bundle { next_ref_id: v.signed(), ..b },
        Fields::Flags => Bundle { flag: v.short(), ..b },
        Fields::Mapq => Bundle { mapq: v.byte(), ..b },
        _ => b,
    }
}

/// All four fields of record `n` can be read.
pub open spec fn readable(reader: Reader<'_>, n: int) -> bool {
    forall|f: Fields| is_stat_field(f) ==> #[trigger] reader.read(f, n) is Ok
}

/// What the statistics look at in record `n`.
pub open spec fn bundle_at(reader: Reader<'_>, n: int) -> Bundle {
    Bundle {
        refid: reader.read(Fields::RefID, n)->Ok_0.signed(),
        next_ref_id: reader.read(Fields::NextRefID, n)->Ok_0.signed(),
        flag: reader.read(Fields::Flags, n)->Ok_0.short(),
        mapq: reader.read(Fields::Mapq, n)->Ok_0.byte(),
    }
}

/// What the statistics look at in the records from `first` on, `count` of
/// them.
pub open spec fn bundles(reader: Reader<'_>, first: int, count: int) -> Seq<Bundle> {
    Seq::new(count as nat, |k: int| bundle_at(reader, first + k))
}

/// Bundle `k` of a batch while one field is read into it: where `k` lies
/// below `upto`, record `first + k` can be read and the bundle in `now` is
/// that in `was` with the field's attribute replaced by what was read;
/// else the bundle is as in `was`.
pub open spec fn slot_filled(
    reader: Reader<'_>,
    field: Fields,
    first: int,
    was: Seq<Bundle>,
    now: Seq<Bundle>,
    upto: int,
    k: int,
) -> bool {
    if k < upto {
        &&& reader.read(field, first + k) is Ok
        &&& now[k] == with_value(was[k], field, reader.read(field, first + k)->Ok_0)
    } else {
        now[k] == was[k]
    }
}

/// The first `upto` bundles of `now` are those of `was` with the attribute
/// of `field` read from the records from `first` on; the others are as in
/// `was`.
pub open spec fn batch_filled(
    reader: Reader<'_>,
    field: Fields,
    first: int,
    was: Seq<Bundle>,
    now: Seq<Bundle>,
    upto: int,
) -> bool {
    &&& now.len() == was.len()
    &&& forall|k: int|
        0 <= k < was.len() ==> #[trigger] slot_filled(reader, field, first, was, now, upto, k)
}

/// Reads one field of the records from `first` on, one for each bundle of
/// `recs`, into that attribute of the bundles.
fn fill_batch_field(
    reader: &mut Reader<'_>,
    field: &Fields,
    first: usize,
    recs: &mut Vec<Bundle>,
) -> (r: Result<(), GbamError>)
    requires
        old(reader).wf(),
        is_stat_field(*field),
        first + old(recs)@.len() <= old(reader).amount,
    ensures
        final(reader).wf(),
        final(reader).same_setup(*old(reader)),
        final(reader).parsing_template == old(reader).parsing_template,
        final(recs)@.len() == old(recs)@.len(),
        match r {
            Ok(()) => batch_filled(
                *old(reader),
                *field,
                first as int,
                old(recs)@,
                final(recs)@,
                old(recs)@.len() as int,
            ),
            Err(e) => exists|k: int|
                0 <= k < old(recs)@.len() && #[trigger] old(reader).read(*field, first + k) == Err::<
                    FieldValue,
                    GbamError,
                >(e),
        },
{
    let ghost start = *reader;
    let mut buf = GbamRecord::new();
    let count = recs.len();
    let mut offset: usize = 0;
    while offset < count
        invariant
            start == *old(reader),
            start.wf(),
            reader.wf(),
            reader.same_setup(start),
            reader.parsing_template == start.parsing_template,
            is_stat_field(*field),
            count == old(recs)@.len(),
            first + count <= start.amount,
            offset <= count,
            batch_filled(start, *field, first as int, old(recs)@, recs@, offset as int),
        decreases count - offset,
    {
        match reader.fill_record_field(field, first + offset, &mut buf) {
            Ok(()) => {},
            Err(e) => {
                return Err(e);
            },
        }
        assert(buf.value_of(*field) == Some(start.read(*field, first + offset)->Ok_0));
        let b = recs[offset];
        let updated = match field {
            Fields::RefID => Bundle {
                refid: match buf.refid {
                    Some(v) => v,
                    None => unreached(),
                },
                next_ref_id: b.next_ref_id,
                flag: b.flag,
                mapq: b.mapq,
            },
            Fields::NextRefID => Bundle {
                refid: b.refid,
                next_ref_id: match buf.next_ref_id {
                    Some(v) => v,
                    None => unreached(),
                },
                flag: b.flag,
                mapq: b.mapq,
            },
            Fields::Flags => Bundle {
                refid: b.refid,
                next_ref_id: b.next_ref_id,
                flag: match buf.flag {
                    Some(v) => v,
                    None => unreached(),
                },
                mapq: b.mapq,
            },
            Fields::Mapq => Bundle {
                refid: b.refid,
                next_ref_id: b.next_ref_id,
                flag: b.flag,
                mapq: match buf.mapq {
                    Some(v) => v,
                    None => unreached(),
                },
            },
            _ => b,
        };
        let ghost prior = recs@;
        recs[offset] = updated;
        assert forall|k: int| 0 <= k < count implies #[trigger] slot_filled(
            start,
            *field,
            first as int,
            old(recs)@,
            recs@,
            offset + 1,
            k,
        ) by {
            assert(slot_filled(start, *field, first as int, old(recs)@, prior, offset as int, k));
        }
        offset += 1;
    }
    Ok(())
}

/// Counting one more record adds what that record adds.
pub proof fn lemma_tally_push(s: Seq<Bundle>, b: Bundle, cat: Counter, w: int)
    ensures
        tally(s.push(b), cat, w) == tally(s, cat, w) + hit(b, cat, w),
{
    assert(s.push(b).drop_last() =~= s);
}

/// No category counts more records than there are.
pub proof fn lemma_tally_bound(s: Seq<Bundle>, cat: Counter, w: int)
    ensures
        0 <= tally(s, cat, w) <= s.len(),
    decreases s.len(),
{
    if s.len() > 0 {
        lemma_tally_bound(s.drop_last(), cat, w);
    }
}

/// Reads the four fields of the records from `first` on, `count` of them,
/// column by column, into `recs`.
fn load_batch(reader: &mut Reader<'_>, first: usize, count: usize, recs: &mut Vec<Bundle>) -> (r:
    Result<(), GbamError>)
    requires
        old(reader).wf(),
        first + count <= old(reader).amount,
    ensures
        final(reader).wf(),
        final(reader).same_setup(*old(reader)),
        final(reader).parsing_template == old(reader).parsing_template,
        match r {
            Ok(()) => final(recs)@ == bundles(*old(reader), first as int, count as int)
                && forall|k: int| 0 <= k < count ==> #[trigger] readable(*old(reader), first + k),
            Err(e) => exists|n: int, f: Fields|
                first <= n < first + count && is_stat_field(f) && #[trigger] old(reader).read(f, n)
                    == Err::<FieldValue, GbamError>(e),
        },
{
    let ghost start = *reader;
    recs.clear();
    let blank = Bundle { refid: 0, next_ref_id: 0, flag: 0, mapq: 0 };
    let mut k: usize = 0;
    while k < count
        invariant
            k <= count,
            recs@.len() == k,
            forall|j: int| 0 <= j < k ==> #[trigger] recs@[j] == blank,
        decreases count - k,
    {
        recs.push(blank);
        k += 1;
    }
    let ghost blanks = recs@;

    match fill_batch_field(reader, &Fields::RefID, first, recs) {
        Ok(()) => {},
        Err(e) => {
            return Err(e);
        },
    }
    let ghost with_refid = recs@;
    let ghost second = *reader;

    match fill_batch_field(reader, &Fields::NextRefID, first, recs) {
        Ok(()) => {},
        Err(e) => {
            let ghost j = choose|j: int|
                0 <= j < count && #[trigger] second.read(Fields::NextRefID, first + j) == Err::<
                    FieldValue,
                    GbamError,
                >(e);
            proof {
                lemma_same_reads(second, start, first + j);
            }
            return Err(e);
        },
    }
    let ghost with_next = recs@;
    let ghost third = *reader;

    match fill_batch_field(reader, &Fields::Flags, first, recs) {
        Ok(()) => {},
        Err(e) => {
            let ghost j = choose|j: int|
                0 <= j < count && #[trigger] third.read(Fields::Flags, first + j) == Err::<
                    FieldValue,
                    GbamError,
                >(e);
            proof {
                lemma_same_reads(third, start, first + j);
            }
            return Err(e);
        },
    }
    let ghost with_flags = recs@;
    let ghost fourth = *reader;

    match fill_batch_field(reader, &Fields::Mapq, first, recs) {
        Ok(()) => {},
        Err(e) => {
            let ghost j = choose|j: int|
                0 <= j < count && #[trigger] fourth.read(Fields::Mapq, first + j) == Err::<
                    FieldValue,
                    GbamError,
                >(e);
            proof {
                lemma_same_reads(fourth, start, first + j);
            }
            return Err(e);
        },
    }

    proof {
        let want = bundles(start, first as int, count as int);
        assert forall|j: int| 0 <= j < count implies #[trigger] recs@[j] == want[j] && readable(
            start,
            first + j,
        ) by {
            lemma_same_reads(second, start, first + j);
            lemma_same_reads(third, start, first + j);
            lemma_same_reads(fourth, start, first + j);
            assert(slot_filled(start, Fields::RefID, first as int, blanks, with_refid, count as int, j));
            assert(slot_filled(
                second,
                Fields::NextRefID,
                first as int,
                with_refid,
                with_next,
                count as int,
                j,
            ));
            assert(slot_filled(third, Fields::Flags, first as int, with_next, with_flags, count as int, j));
            assert(slot_filled(fourth, Fields::Mapq, first as int, with_flags, recs@, count as int, j));
        }
        assert forall|j: int| 0 <= j < count implies #[trigger] readable(start, first + j) by {
            assert(recs@[j] == want[j]);
        }
    }
    Ok(())
}

/// Computes the flag statistics of a container: reads reference,
/// mate reference, flags and mapping quality of every record, in batches
/// of `BUF_SIZE` records and column by column within a batch, and counts
/// each record. Fails with what a record that cannot be read fails with.
pub fn collect_stats(reader: &mut Reader<'_>) -> (r: Result<Stats, GbamError>)
    requires
        old(reader).wf(),
        old(reader).amount <= i64::MAX,
    ensures
        final(reader).wf(),
        final(reader).same_setup(*old(reader)),
        final(reader).parsing_template == old(reader).parsing_template,
        match r {
            Ok(stats) => stats.counts_of(bundles(*old(reader), 0, old(reader).amount as int))
                && forall|n: int|
                0 <= n < old(reader).amount ==> #[trigger] readable(*old(reader), n),
            Err(e) => exists|n: int, f: Fields|
                0 <= n < old(reader).amount && is_stat_field(f) && #[trigger] old(reader).read(f, n)
                    == Err::<FieldValue, GbamError>(e),
        },
{
    let ghost start = *reader;
    let mut stats = Stats::new();
    let mut recs: Vec<Bundle> = Vec::new();
    let amount = reader.amount;
    let mut current: usize = 0;
    while current < amount
        invariant
            start == *old(reader),
            start.wf(),
            reader.wf(),
            reader.same_setup(start),
            reader.parsing_template == start.parsing_template,
            amount == start.amount,
            amount <= i64::MAX,
            current <= amount,
            stats.counts_of(bundles(start, 0, current as int)),
            forall|n: int| 0 <= n < current ==> #[trigger] readable(start, n),
        decreases amount - current,
    {
        let available: usize = if amount - current < BUF_SIZE {
            amount - current
        } else {
            BUF_SIZE
        };
        let ghost before = *reader;
        match load_batch(reader, current, available, &mut recs) {
            Ok(()) => {},
            Err(e) => {
                let ghost (n, f) = choose|n: int, f: Fields|
                    current <= n < current + available && is_stat_field(f)
                        && #[trigger] before.read(f, n) == Err::<FieldValue, GbamError>(e);
                proof {
                    lemma_same_reads(before, start, n);
                }
                return Err(e);
            },
        }
        proof {
            assert forall|n: int| 0 <= n < current + available implies #[trigger] readable(
                start,
                n,
            ) by {
                if n >= current {
                    assert(readable(before, current + (n - current)));
                    lemma_same_reads(before, start, n);
                }
            }
            assert forall|k: int| 0 <= k < available implies #[trigger] recs@[k] == bundle_at(
                start,
                current + k,
            ) by {
                lemma_same_reads(before, start, current + k);
            }
        }
        let mut offset: usize = 0;
        while offset < available
            invariant
                offset <= available,
                current + available <= amount,
                amount <= i64::MAX,
                recs@.len() == available,
                forall|k: int|
                    0 <= k < available ==> #[trigger] recs@[k] == bundle_at(start, current + k),
                stats.counts_of(bundles(start, 0, current + offset)),
            decreases available - offset,
        {
            let ghost done = bundles(start, 0, current + offset);
            let ghost next = bundles(start, 0, current + offset + 1);
            proof {
                assert(next =~= done.push(recs@[offset as int]));
                assert forall|cat: Counter, w: int| 0 <= w < 2 implies #[trigger] stats.get(
                    cat,
                )@[w] < i64::MAX by {
                    lemma_tally_bound(done, cat, w);
                }
            }
            let ghost prior = stats;
            collect(&recs[offset], &mut stats);
            proof {
                assert forall|cat: Counter, w: int| 0 <= w < 2 implies #[trigger] stats.get(
                    cat,
                )@[w] == tally(next, cat, w) by {
                    assert(stepped(prior, stats, recs@[offset as int], cat));
                    lemma_tally_push(done, recs@[offset as int], cat, w);
                }
            }
            offset += 1;
        }
        current += available;
    }
    Ok(stats)
}

impl Counter {
    /// The categories in the order in which the statistics show them.
    pub open spec fn in_order() -> Seq<Counter> {
        seq![
            Counter::Reads,
            Counter::Primary,
            Counter::Secondary,
            Counter::Supplementary,
            Counter::Duplicates,
            Counter::PrimaryDuplicates,
            Counter::Mapped,
            Counter::PrimaryMapped,
            Counter::Paired,
            Counter::Read1,
            Counter::Read2,
            Counter::ProperlyPaired,
            Counter::BothMapped,
            Counter::Singletons,
            Counter::DifferentChr,
            Counter::DifferentChrHighMapq,
        ]
    }

    /// The words that follow the two counts of the category.
    pub open spec fn spec_label(self) -> Seq<char> {
        match self {
            Counter::Reads => "in total (QC-passed reads + QC-failed reads)"@,
            Counter::Primary => "primary"@,
            Counter::Secondary => "secondary"@,
            Counter::Supplementary => "supplementary"@,
            Counter::Duplicates => "duplicates"@,
            Counter::PrimaryDuplicates => "primary duplicates"@,
            Counter::Mapped => "mapped"@,
            Counter::PrimaryMapped => "primary mapped"@,
            Counter::Paired => "paired in sequencing"@,
            Counter::Read1 => "read1"@,
            Counter::Read2 => "read2"@,
            Counter::ProperlyPaired => "properly paired"@,
            Counter::BothMapped => "with itself and mate mapped"@,
            Counter::Singletons => "singletons"@,
            Counter::DifferentChr => "with mate mapped to a different chr"@,
            Counter::DifferentChrHighMapq => "with mate mapped to a different chr (mapQ>=5)"@,
        }
    }

    /// The category that the counts of this one are shown as a share of,
    /// for the four that are: mapped reads of all reads, primary mapped of
    /// primary, properly paired and singletons of paired.
    pub open spec fn spec_share_of(self) -> Option<Counter> {
        match self {
            Counter::Mapped => Some(Counter::Reads),
            Counter::PrimaryMapped => Some(Counter::Primary),
            Counter::ProperlyPaired => Some(Counter::Paired),
            Counter::Singletons => Some(Counter::Paired),
            _ => None,
        }
    }

    /// The words that follow the two counts of the category.
    pub fn label(&self) -> (s: &'static str)
        ensures
            s@ == self.spec_label(),
    {
        match self {
            Counter::Reads => "in total (QC-passed reads + QC-failed reads)",
            Counter::Primary => "primary",
            Counter::Secondary => "secondary",
            Counter::Supplementary => "supplementary",
            Counter::Duplicates => "duplicates",
            Counter::PrimaryDuplicates => "primary duplicates",
            Counter::Mapped => "mapped",
            Counter::PrimaryMapped => "primary mapped",
            Counter::Paired => "paired in sequencing",
            Counter::Read1 => "read1",
            Counter::Read2 => "read2",
            Counter::ProperlyPaired => "properly paired",
            Counter::BothMapped => "with itself and mate mapped",
            Counter::Singletons => "singletons",
            Counter::DifferentChr => "with mate mapped to a different chr",
            Counter::DifferentChrHighMapq => "with mate mapped to a different chr (mapQ>=5)",
        }
    }

    /// The category that the counts of this one are shown as a share of.
    pub fn share_of(&self) -> (r: Option<Counter>)
        ensures
            r == self.spec_share_of(),
    {
        match self {
            Counter::Mapped => Some(Counter::Reads),
            Counter::PrimaryMapped => Some(Counter::Primary),
            Counter::ProperlyPaired => Some(Counter::Paired),
            Counter::Singletons => Some(Counter::Paired),
            _ => None,
        }
    }
}

/// One line of the statistics: the two counts of a category, the words
/// that follow them, and for a category shown as a share the two counts
/// that the shares are taken of.
#[derive(Clone, Copy, Debug, PartialEq, Eq)]
pub struct ReportLine {
    pub passed: i64,
    pub failed: i64,
    pub label: &'static str,
    pub totals: Option<[i64; 2]>,
}

impl ReportLine {
    /// The line is that of the category in the statistics.
    pub open spec fn shows(self, stats: Stats, cat: Counter) -> bool {
        &&& self.passed == stats.get(cat)@[0]
        &&& self.failed == stats.get(cat)@[1]
        &&& self.label@ == cat.spec_label()
        &&& self.totals == match cat.spec_share_of() {
            Some(of) => Some(stats.get(of)),
            None => None,
        }
    }
}

impl Stats {
    /// The two counts of a category.
    pub fn count(&self, cat: &Counter) -> (r: [i64; 2])
        ensures
            r == self.get(*cat),
    {
        match cat {
            Counter::Reads => self.n_reads,
            Counter::Primary => self.n_primary,
            Counter::Secondary => self.n_secondary,
            Counter::Supplementary => self.n_supp,
            Counter::Duplicates => self.n_dup,
            Counter::PrimaryDuplicates => self.n_pdup,
            Counter::Mapped => self.n_mapped,
            Counter::PrimaryMapped => self.n_pmapped,
            Counter::Paired => self.n_pair_all,
            Counter::Read1 => self.n_read1,
            Counter::Read2 => self.n_read2,
            Counter::ProperlyPaired => self.n_pair_good,
            Counter::BothMapped => self.n_pair_map,
            Counter::Singletons => self.n_sgltn,
            Counter::DifferentChr => self.n_diffchr,
            Counter::DifferentChrHighMapq => self.n_diffhigh,
        }
    }

    /// The line of one category.
    pub fn line(&self, cat: Counter) -> (r: ReportLine)
        ensures
            r.shows(*self, cat),
    {
        let counts = self.count(&cat);
        ReportLine {
            passed: counts[0],
            failed: counts[1],
            label: cat.label(),
            totals: match cat.share_of() {
                Some(of) => Some(self.count(&of)),
                None => None,
            },
        }
    }

    /// The sixteen lines of the statistics, in the order in which they are
    /// shown.
    pub fn lines(&self) -> (r: Vec<ReportLine>)
        ensures
            r@.len() == 16,
            Counter::in_order().len() == 16,
            forall|k: int| 0 <= k < 16 ==> (#[trigger] r@[k]).shows(*self, Counter::in_order()[k]),
    {
        let mut r: Vec<ReportLine> = Vec::new();
        r.push(self.line(Counter::Reads));
        r.push(self.line(Counter::Primary));
        r.push(self.line(Counter::Secondary));
        r.push(self.line(Counter::Supplementary));
        r.push(self.line(Counter::Duplicates));
        r.push(self.line(Counter::PrimaryDuplicates));
        r.push(self.line(Counter::Mapped));
        r.push(self.line(Counter::PrimaryMapped));
        r.push(self.line(Counter::Paired));
        r.push(self.line(Counter::Read1));
        r.push(self.line(Counter::Read2));
        r.push(self.line(Counter::ProperlyPaired));
        r.push(self.line(Counter::BothMapped));
        r.push(self.line(Counter::Singletons));
        r.push(self.line(Counter::DifferentChr));
        r.push(self.line(Counter::DifferentChrHighMapq));
        r
    }
}

} // verus!
