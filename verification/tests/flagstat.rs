use gbam_tools::error::GbamError;
use gbam_tools::fields::Fields;
use gbam_tools::flagstat::{
    collect, collect_stats, Bundle, Counter, ReportLine, Stats, BUF_SIZE,
};
use gbam_tools::meta::{BlockMeta, Codecs, FieldMeta, FieldMetaMap, FileMeta};
use gbam_tools::reader::Reader;
use gbam_tools::template::ParsingTemplate;
use gbam_tools::writer::assemble_file;
use std::io::Write;

fn gzip(bytes: &[u8]) -> Vec<u8> {
    let mut encoder = flate2::write::GzEncoder::new(Vec::new(), flate2::Compression::fast());
    encoder.write_all(bytes).unwrap();
    encoder.finish().unwrap()
}

fn bundle(flag: u16) -> Bundle {
    Bundle { refid: 0, next_ref_id: 0, flag, mapq: 0 }
}

fn stats_of(bundles: &[Bundle]) -> Stats {
    let mut stats = Stats::new();
    for b in bundles {
        collect(b, &mut stats);
    }
    stats
}

fn stat_template() -> ParsingTemplate {
    let mut t = ParsingTemplate::new();
    t.set(&Fields::RefID, true);
    t.set(&Fields::NextRefID, true);
    t.set(&Fields::Flags, true);
    t.set(&Fields::Mapq, true);
    t
}

/// A container with the four fields that the statistics read, in blocks of
/// `per_block` records.
fn stat_file(bundles: &[Bundle], per_block: usize) -> (Vec<u8>, FileMeta) {
    let mut blocks: Vec<u8> = Vec::new();
    let mut map = FieldMetaMap::new();
    for field in [Fields::RefID, Fields::NextRefID, Fields::Flags, Fields::Mapq] {
        let mut fm = FieldMeta::new(&field, Codecs::Gzip);
        for chunk in bundles.chunks(per_block) {
            let raw: Vec<u8> = match field {
                Fields::RefID => chunk.iter().flat_map(|b| b.refid.to_le_bytes()).collect(),
                Fields::NextRefID => {
                    chunk.iter().flat_map(|b| b.next_ref_id.to_le_bytes()).collect()
                }
                Fields::Flags => chunk.iter().flat_map(|b| b.flag.to_le_bytes()).collect(),
                _ => chunk.iter().map(|b| b.mapq).collect(),
            };
            let stored = gzip(&raw);
            fm.blocks.push(BlockMeta {
                seekpos: (32 + blocks.len()) as u64,
                numitems: chunk.len() as u32,
            });
            fm.blocks_sizes.push(stored.len() as u32);
            blocks.extend_from_slice(&stored);
        }
        map.insert(field, fm);
    }
    let (_, bytes) = assemble_file([1, 0], &blocks, b"{}");
    (bytes, FileMeta { field_to_meta: map })
}

#[test]
fn new_stats_are_all_zero() {
    assert_eq!(Stats::new(), Stats::default());
    assert_eq!(Stats::new().n_reads, [0, 0]);
    assert_eq!(Stats::new().n_diffhigh, [0, 0]);
}

#[test]
fn flagstat_of_six_flags() {
    let flags = [0x1, 0x1 | 0x40, 0x1 | 0x80 | 0x200, 0x4, 0x100, 0x400];
    let bundles: Vec<Bundle> = flags.iter().map(|f| bundle(*f)).collect();
    let stats = stats_of(&bundles);
    assert_eq!(stats.n_reads, [5, 1]);
    assert_eq!(stats.n_secondary, [1, 0]);
    assert_eq!(stats.n_dup, [1, 0]);
    assert_eq!(stats.n_read1, [1, 0]);
    assert_eq!(stats.n_read2, [0, 1]);
    assert_eq!(stats.n_pair_all, [2, 1]);
    assert_eq!(stats.n_primary, [4, 1]);
    assert_eq!(stats.n_supp, [0, 0]);
    assert_eq!(stats.n_mapped, [4, 1]);
    assert_eq!(stats.n_pmapped, [3, 1]);
    assert_eq!(stats.n_pdup, [1, 0]);
    assert_eq!(stats.n_pair_map, [2, 1]);
    assert_eq!(stats.n_pair_good, [0, 0]);
    assert_eq!(stats.n_sgltn, [0, 0]);
    assert_eq!(stats.n_diffchr, [0, 0]);
    assert_eq!(stats.n_diffhigh, [0, 0]);
}

#[test]
fn secondary_counts_nowhere_among_the_primary() {
    // Secondary, paired, read1, duplicate, proper pair.
    let stats = stats_of(&[bundle(0x100 | 0x1 | 0x40 | 0x400 | 0x2)]);
    let mut want = Stats::new();
    want.n_reads = [1, 0];
    want.n_secondary = [1, 0];
    want.n_mapped = [1, 0];
    want.n_dup = [1, 0];
    assert_eq!(stats, want);
}

#[test]
fn supplementary_counts_nowhere_among_the_primary() {
    let stats = stats_of(&[bundle(0x800 | 0x1 | 0x80 | 0x400 | 0x200)]);
    let mut want = Stats::new();
    want.n_reads = [0, 1];
    want.n_supp = [0, 1];
    want.n_mapped = [0, 1];
    want.n_dup = [0, 1];
    assert_eq!(stats, want);
}

#[test]
fn secondary_wins_over_supplementary() {
    let stats = stats_of(&[bundle(0x100 | 0x800 | 0x4)]);
    let mut want = Stats::new();
    want.n_reads = [1, 0];
    want.n_secondary = [1, 0];
    assert_eq!(stats, want);
}

#[test]
fn proper_pair_needs_a_mapped_read() {
    let proper = stats_of(&[bundle(0x1 | 0x2)]);
    assert_eq!(proper.n_pair_good, [1, 0]);
    assert_eq!(proper.n_pair_map, [1, 0]);
    let unmapped = stats_of(&[bundle(0x1 | 0x2 | 0x4)]);
    assert_eq!(unmapped.n_pair_good, [0, 0]);
    assert_eq!(unmapped.n_pair_all, [1, 0]);
    assert_eq!(unmapped.n_pair_map, [0, 0]);
    assert_eq!(unmapped.n_mapped, [0, 0]);
    assert_eq!(unmapped.n_pmapped, [0, 0]);
    let unpaired = stats_of(&[bundle(0x2 | 0x40 | 0x80)]);
    assert_eq!(unpaired.n_pair_good, [0, 0]);
    assert_eq!(unpaired.n_read1, [0, 0]);
    assert_eq!(unpaired.n_read2, [0, 0]);
    assert_eq!(unpaired.n_primary, [1, 0]);
}

#[test]
fn singleton_is_mapped_with_an_unmapped_mate() {
    let singleton = stats_of(&[bundle(0x1 | 0x8)]);
    assert_eq!(singleton.n_sgltn, [1, 0]);
    assert_eq!(singleton.n_pair_map, [0, 0]);
    let both_unmapped = stats_of(&[bundle(0x1 | 0x8 | 0x4 | 0x200)]);
    assert_eq!(both_unmapped.n_sgltn, [0, 0]);
    assert_eq!(both_unmapped.n_pair_all, [0, 1]);
}

#[test]
fn mate_on_another_chromosome() {
    let same = Bundle { refid: 3, next_ref_id: 3, flag: 0x1, mapq: 60 };
    let low = Bundle { refid: 3, next_ref_id: 4, flag: 0x1, mapq: 4 };
    let edge = Bundle { refid: 3, next_ref_id: 4, flag: 0x1, mapq: 5 };
    let high_failed = Bundle { refid: -1, next_ref_id: 0, flag: 0x1 | 0x200, mapq: 255 };
    let mate_unmapped = Bundle { refid: 1, next_ref_id: 2, flag: 0x1 | 0x8, mapq: 60 };
    let unpaired = Bundle { refid: 1, next_ref_id: 2, flag: 0, mapq: 60 };
    let stats = stats_of(&[same, low, edge, high_failed, mate_unmapped, unpaired]);
    assert_eq!(stats.n_pair_map, [3, 1]);
    assert_eq!(stats.n_diffchr, [2, 1]);
    assert_eq!(stats.n_diffhigh, [1, 1]);
    assert_eq!(stats.n_sgltn, [1, 0]);
    assert_eq!(stats.n_reads, [5, 1]);
}

#[test]
fn flag_bits_outside_the_known_ones_are_ignored() {
    let stats = stats_of(&[bundle(0xf000 | 0x10 | 0x20)]);
    let mut want = Stats::new();
    want.n_reads = [1, 0];
    want.n_primary = [1, 0];
    want.n_mapped = [1, 0];
    want.n_pmapped = [1, 0];
    assert_eq!(stats, want);
}

#[test]
fn collect_adds_to_what_is_there() {
    let mut stats = Stats::new();
    stats.n_reads = [10, 20];
    stats.n_dup = [i64::MAX - 1, 7];
    collect(&bundle(0x400), &mut stats);
    collect(&bundle(0x400 | 0x200), &mut stats);
    assert_eq!(stats.n_reads, [11, 21]);
    assert_eq!(stats.n_dup, [i64::MAX, 8]);
    assert_eq!(stats.n_pdup, [1, 1]);
}

#[test]
fn collect_stats_reads_the_four_columns() {
    let flags = [0x1, 0x1 | 0x40, 0x1 | 0x80 | 0x200, 0x4, 0x100, 0x400];
    let bundles: Vec<Bundle> = flags
        .iter()
        .enumerate()
        .map(|(i, f)| Bundle { refid: i as i32, next_ref_id: 2, flag: *f, mapq: 3 + i as u8 })
        .collect();
    for per_block in [1usize, 4, 6] {
        let (bytes, meta) = stat_file(&bundles, per_block);
        let mut reader = Reader::new(&bytes, stat_template(), &meta).unwrap();
        let stats = collect_stats(&mut reader).unwrap();
        assert_eq!(stats, stats_of(&bundles));
        assert_eq!(stats.n_reads, [5, 1]);
        assert_eq!(stats.n_pair_all, [2, 1]);
        // Records 0 and 1 pass, are paired and mapped, and their mate lies elsewhere.
        assert_eq!(stats.n_diffchr, [2, 0]);
        assert_eq!(stats.n_diffhigh, [0, 0]);
    }
}

#[test]
fn collect_stats_of_no_records() {
    let (bytes, meta) = stat_file(&[], 4);
    let mut reader = Reader::new(&bytes, stat_template(), &meta).unwrap();
    assert_eq!(collect_stats(&mut reader), Ok(Stats::new()));
}

#[test]
fn collect_stats_over_more_than_one_batch() {
    let n = BUF_SIZE + 1234;
    let bundles: Vec<Bundle> = (0..n)
        .map(|i| Bundle {
            refid: (i % 3) as i32,
            next_ref_id: (i % 5) as i32,
            flag: (i % 4096) as u16,
            mapq: (i % 11) as u8,
        })
        .collect();
    let (bytes, meta) = stat_file(&bundles, 300_000);
    let mut reader = Reader::new(&bytes, stat_template(), &meta).unwrap();
    assert_eq!(reader.amount, n);
    let stats = collect_stats(&mut reader).unwrap();
    assert_eq!(stats, stats_of(&bundles));
    assert_eq!(stats.n_reads[0] + stats.n_reads[1], n as i64);
}

#[test]
fn collect_stats_leaves_the_template_alone() {
    let bundles = [bundle(1), bundle(2)];
    let (bytes, meta) = stat_file(&bundles, 2);
    let mut reader = Reader::new(&bytes, stat_template(), &meta).unwrap();
    reader.fetch_only(&[Fields::Mapq]);
    let narrowed = reader.parsing_template;
    assert!(collect_stats(&mut reader).is_ok());
    assert_eq!(reader.parsing_template, narrowed);
    assert_eq!(reader.original_template, stat_template());
}

#[test]
fn collect_stats_without_a_needed_column_is_out_of_range() {
    let bundles = [bundle(1), bundle(2)];
    let (bytes, meta) = stat_file(&bundles, 2);
    let mut t = stat_template();
    t.set(&Fields::Mapq, false);
    let mut reader = Reader::new(&bytes, t, &meta).unwrap();
    assert_eq!(collect_stats(&mut reader), Err(GbamError::OutOfRange));
}

#[test]
fn collect_stats_reports_a_damaged_block() {
    let bundles: Vec<Bundle> = (0..10).map(|i| bundle(i)).collect();
    let (mut bytes, meta) = stat_file(&bundles, 5);
    let second_flags_block = meta.view_blocks(&Fields::Flags)[1].seekpos as usize;
    bytes[second_flags_block] ^= 0xff;
    let mut reader = Reader::new_with_meta(&bytes, stat_template(), &meta).unwrap();
    assert_eq!(collect_stats(&mut reader), Err(GbamError::BlockCorrupt(Fields::Flags, 1)));
}

#[test]
fn lines_come_in_the_usual_order_with_their_labels() {
    let labels: Vec<&str> = Stats::new().lines().iter().map(|l| l.label).collect();
    assert_eq!(
        labels,
        vec![
            "in total (QC-passed reads + QC-failed reads)",
            "primary",
            "secondary",
            "supplementary",
            "duplicates",
            "primary duplicates",
            "mapped",
            "primary mapped",
            "paired in sequencing",
            "read1",
            "read2",
            "properly paired",
            "with itself and mate mapped",
            "singletons",
            "with mate mapped to a different chr",
            "with mate mapped to a different chr (mapQ>=5)",
        ]
    );
}

#[test]
fn lines_show_the_counts_and_what_the_shares_are_of() {
    let mut stats = Stats::new();
    stats.n_reads = [1, 2];
    stats.n_primary = [3, 4];
    stats.n_secondary = [5, 6];
    stats.n_supp = [7, 8];
    stats.n_dup = [9, 10];
    stats.n_pdup = [11, 12];
    stats.n_mapped = [13, 14];
    stats.n_pmapped = [15, 16];
    stats.n_pair_all = [17, 18];
    stats.n_read1 = [19, 20];
    stats.n_read2 = [21, 22];
    stats.n_pair_good = [23, 24];
    stats.n_pair_map = [25, 26];
    stats.n_sgltn = [27, 28];
    stats.n_diffchr = [29, 30];
    stats.n_diffhigh = [31, 32];
    let lines = stats.lines();
    assert_eq!(lines.len(), 16);
    for (k, line) in lines.iter().enumerate() {
        assert_eq!(line.passed, 2 * k as i64 + 1);
        assert_eq!(line.failed, 2 * k as i64 + 2);
        let totals = match k {
            6 => Some([1, 2]),
            7 => Some([3, 4]),
            11 | 13 => Some([17, 18]),
            _ => None,
        };
        assert_eq!(line.totals, totals);
    }
    assert_eq!(
        lines[11],
        ReportLine { passed: 23, failed: 24, label: "properly paired", totals: Some([17, 18]) }
    );
    assert_eq!(stats.line(Counter::Singletons), lines[13]);
    assert_eq!(stats.count(&Counter::DifferentChr), [29, 30]);
}

#[test]
fn counter_labels_and_shares() {
    assert_eq!(Counter::Reads.label(), "in total (QC-passed reads + QC-failed reads)");
    assert_eq!(Counter::Mapped.share_of(), Some(Counter::Reads));
    assert_eq!(Counter::PrimaryMapped.share_of(), Some(Counter::Primary));
    assert_eq!(Counter::ProperlyPaired.share_of(), Some(Counter::Paired));
    assert_eq!(Counter::Singletons.share_of(), Some(Counter::Paired));
    assert_eq!(Counter::Paired.share_of(), None);
    assert_eq!(Counter::Reads.share_of(), None);
}

#[test]
fn first_line_of_the_six_flags() {
    let flags = [0x1, 0x1 | 0x40, 0x1 | 0x80 | 0x200, 0x4, 0x100, 0x400];
    let bundles: Vec<Bundle> = flags.iter().map(|f| bundle(*f)).collect();
    let first = stats_of(&bundles).lines()[0];
    assert_eq!(
        format!("{} + {} {}", first.passed, first.failed, first.label),
        "5 + 1 in total (QC-passed reads + QC-failed reads)"
    );
}
