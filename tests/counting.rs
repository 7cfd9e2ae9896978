use kmer_count::cli::{thread_count, Cli, FileFormat};
use kmer_count::counter::{Counter, SharedTally};
use kmer_count::encoding::{decode, encode};
use kmer_count::tally::{consolidate_maps, kmer_count, CountError, KmerMap};

fn sorted_rows(counter: &Counter) -> Vec<(String, usize)> {
    let mut rows: Vec<(String, usize)> = counter
        .rows()
        .into_iter()
        .map(|(n, s)| (String::from_utf8(s).unwrap(), n))
        .collect();
    rows.sort();
    rows
}

fn expected(pairs: &[(&str, usize)]) -> Vec<(String, usize)> {
    let mut v: Vec<(String, usize)> = pairs.iter().map(|(s, n)| (s.to_string(), *n)).collect();
    v.sort();
    v
}

#[test]
fn encode_packs_first_base_lowest() {
    assert_eq!(encode(b"ACGT"), Some(0b11100100));
    assert_eq!(encode(b"A"), Some(0));
    assert_eq!(encode(b"T"), Some(3));
    assert_eq!(encode(b""), Some(0));
}

#[test]
fn encode_ignores_letter_case() {
    assert_eq!(encode(b"acgt"), encode(b"ACGT"));
}

#[test]
fn encode_rejects_non_canonical() {
    assert_eq!(encode(b"ACGN"), None);
    assert_eq!(encode(b"N"), None);
}

#[test]
fn decode_reads_letters() {
    assert_eq!(decode(0b11100100, 4), b"ACGT".to_vec());
    assert_eq!(decode(57, 4), b"CGTA".to_vec());
    assert_eq!(decode(0, 3), b"AAA".to_vec());
}

#[test]
fn round_trip_every_size() {
    let letters = b"GATTACACGTTGCAAGTCCATGGACTTAGCAT";
    for k in 1..=32 {
        let s = &letters[..k];
        let key = encode(s).unwrap();
        assert_eq!(decode(key, k), s.to_vec());
    }
}

#[test]
fn round_trip_lower_case_comes_back_upper() {
    let key = encode(b"gattaca").unwrap();
    assert_eq!(decode(key, 7), b"GATTACA".to_vec());
}

#[test]
fn kmer_count_example() {
    let mut map = KmerMap::new();
    assert_eq!(kmer_count(b"ACGTACGT", &mut map, 4), Ok(()));
    assert_eq!(map.count(encode(b"ACGT").unwrap()), 2);
    assert_eq!(map.count(encode(b"CGTA").unwrap()), 1);
    assert_eq!(map.count(encode(b"GTAC").unwrap()), 1);
    assert_eq!(map.count(encode(b"TACG").unwrap()), 1);
    assert_eq!(map.entries().len(), 4);
}

#[test]
fn kmer_count_window_total() {
    let seq = b"ACGTTGCAAG";
    for k in 1..=10 {
        let mut map = KmerMap::new();
        assert_eq!(kmer_count(seq, &mut map, k), Ok(()));
        let total: usize = map.entries().iter().map(|(_, c)| *c).sum();
        assert_eq!(total, seq.len() - k + 1);
    }
}

#[test]
fn kmer_count_record_too_short() {
    let mut map = KmerMap::new();
    map.add(7, 3);
    assert_eq!(
        kmer_count(b"ACG", &mut map, 4),
        Err(CountError::RecordTooShort { len: 3, ksize: 4 })
    );
    assert_eq!(map.entries(), vec![(7, 3)]);
}

#[test]
fn kmer_count_record_of_exactly_k() {
    let mut map = KmerMap::new();
    assert_eq!(kmer_count(b"ACGT", &mut map, 4), Ok(()));
    assert_eq!(map.entries(), vec![(0b11100100, 1)]);
}

#[test]
fn kmer_count_skips_non_canonical_windows() {
    let mut whole = KmerMap::new();
    assert_eq!(kmer_count(b"ACGTNACGTA", &mut whole, 3), Ok(()));
    let mut split = KmerMap::new();
    assert_eq!(kmer_count(b"ACGT", &mut split, 3), Ok(()));
    assert_eq!(kmer_count(b"ACGTA", &mut split, 3), Ok(()));
    let mut a = whole.entries();
    let mut b = split.entries();
    a.sort();
    b.sort();
    assert_eq!(a, b);
    let total: usize = a.iter().map(|(_, c)| *c).sum();
    assert_eq!(total, 5);
}

#[test]
fn kmer_count_all_windows_rejected() {
    let mut map = KmerMap::new();
    assert_eq!(kmer_count(b"NNNN", &mut map, 2), Ok(()));
    assert!(map.entries().is_empty());
}

#[test]
fn consolidate_adds_and_empties() {
    let mut from = KmerMap::new();
    from.add(1, 2);
    from.add(5, 4);
    let mut to = KmerMap::new();
    to.add(1, 10);
    to.add(9, 1);
    consolidate_maps(&mut from, &mut to);
    assert!(from.entries().is_empty());
    assert_eq!(to.count(1), 12);
    assert_eq!(to.count(5), 4);
    assert_eq!(to.count(9), 1);
    assert_eq!(to.entries().len(), 3);
}

#[test]
fn consolidate_empty_is_no_op() {
    let mut from = KmerMap::new();
    let mut to = KmerMap::new();
    to.add(3, 3);
    consolidate_maps(&mut from, &mut to);
    assert_eq!(to.entries(), vec![(3, 3)]);
}

#[test]
fn add_saturates() {
    let mut map = KmerMap::new();
    map.add(1, usize::MAX);
    map.add(1, 1);
    assert_eq!(map.count(1), usize::MAX);
}

#[test]
fn shared_tally_absorbs() {
    let mut shared = SharedTally::new();
    let mut local = KmerMap::new();
    local.add(4, 2);
    shared.absorb(&mut local, 3);
    assert_eq!(shared.map.count(4), 2);
    assert_eq!(shared.n_records, 3);
    assert!(local.entries().is_empty());
    let rows = shared.rows(2);
    assert_eq!(rows, vec![(2, b"AC".to_vec())]);
}

#[test]
fn counter_rejects_large_k() {
    assert!(matches!(Counter::new(33), Err(CountError::KsizeTooLarge { ksize: 33 })));
    assert!(Counter::new(32).is_ok());
}

#[test]
fn end_to_end_example() {
    let mut counter = Counter::new(4).unwrap();
    assert_eq!(counter.process_record(b"ACGTACGT"), Ok(()));
    counter.on_batch_complete();
    assert_eq!(counter.n_records(), 1);
    assert_eq!(
        sorted_rows(&counter),
        expected(&[("ACGT", 2), ("CGTA", 1), ("GTAC", 1), ("TACG", 1)])
    );
}

#[test]
fn nothing_merged_before_batch_complete() {
    let mut counter = Counter::new(2).unwrap();
    assert_eq!(counter.process_record(b"ACGT"), Ok(()));
    assert_eq!(counter.n_records(), 0);
    assert!(counter.rows().is_empty());
}

#[test]
fn process_record_too_short_propagates() {
    let mut counter = Counter::new(5).unwrap();
    assert_eq!(
        counter.process_record(b"ACGT"),
        Err(CountError::RecordTooShort { len: 4, ksize: 5 })
    );
    counter.on_batch_complete();
    assert_eq!(counter.n_records(), 0);
    assert!(counter.rows().is_empty());
}

#[test]
fn batch_complete_twice_changes_nothing() {
    let mut counter = Counter::new(3).unwrap();
    assert_eq!(counter.process_record(b"ACGTAC"), Ok(()));
    counter.on_batch_complete();
    let first = sorted_rows(&counter);
    let n = counter.n_records();
    counter.on_batch_complete();
    assert_eq!(sorted_rows(&counter), first);
    assert_eq!(counter.n_records(), n);
}

#[test]
fn workers_and_batches_agree_with_one_worker() {
    let records: [&[u8]; 5] = [b"ACGTACGT", b"GGGTTTAC", b"ACNNGTAC", b"TTTT", b"CAGTGCA"];

    let mut single = Counter::new(3).unwrap();
    for r in records.iter() {
        assert_eq!(single.process_record(r), Ok(()));
    }
    single.on_batch_complete();

    let engine = Counter::new(3).unwrap();
    let mut a = engine.worker();
    let mut b = engine.worker();
    assert_eq!(a.process_record(records[0]), Ok(()));
    assert_eq!(b.process_record(records[1]), Ok(()));
    b.on_batch_complete();
    assert_eq!(a.process_record(records[2]), Ok(()));
    a.on_batch_complete();
    assert_eq!(b.process_record(records[3]), Ok(()));
    assert_eq!(b.process_record(records[4]), Ok(()));
    b.on_batch_complete();

    assert_eq!(sorted_rows(&engine), sorted_rows(&single));
    assert_eq!(engine.n_records(), 5);
    assert_eq!(single.n_records(), 5);
    assert_eq!(engine.ksize(), 3);
}

fn cli(input: &str) -> Cli {
    Cli { input: input.to_string(), kmer: 4, threads: 1, log: None }
}

#[test]
fn format_from_path() {
    assert_eq!(cli("reads.bq").format().unwrap(), FileFormat::Binseq);
    assert_eq!(cli("reads.vbq").format().unwrap(), FileFormat::Binseq);
    assert_eq!(cli("reads.fastq.gz").format().unwrap(), FileFormat::Fastx);
    assert_eq!(cli("reads.fq").format().unwrap(), FileFormat::Fastx);
    assert_eq!(cli("genome.fasta").format().unwrap(), FileFormat::Fastx);
    assert_eq!(cli("genome.fa.gz").format().unwrap(), FileFormat::Fastx);
}

#[test]
fn format_unknown_is_error() {
    let err = cli("notes.txt").format().unwrap_err();
    assert_eq!(err.path, "notes.txt");
    assert!(cli("reads.bq.gz").format().is_err());
}

#[test]
fn cli_getters() {
    let c = Cli { input: "x.fq".to_string(), kmer: 21, threads: 0, log: Some("run.json".to_string()) };
    assert_eq!(c.path(), "x.fq");
    assert_eq!(c.ksize(), 21);
    assert_eq!(c.log_path(), Some("run.json"));
    assert_eq!(cli("x.fq").log_path(), None);
    assert!(c.threads() >= 1);
    assert!(cli("x.fq").threads() <= 1);
}

#[test]
fn thread_count_rules() {
    assert_eq!(thread_count(0, 8), 8);
    assert_eq!(thread_count(4, 8), 4);
    assert_eq!(thread_count(16, 8), 8);
    assert_eq!(thread_count(1, 1), 1);
}
