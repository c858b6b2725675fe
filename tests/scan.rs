use patternscanner::{mt, st, PatternScannerBuilder, PatternScannerError};

const UNIQUE: [u8; 10] = [0x00, 0x01, 0x02, 0x33, 0x35, 0x33, 0x36, 0x07, 0x08, 0x09];
const TWICE: [u8; 10] = [0x00, 0x01, 0x02, 0x33, 0x35, 0x33, 0x35, 0x07, 0x08, 0x09];

#[test]
fn test_pattern_scan() {
    let result = PatternScannerBuilder::builder()
        .with_bytes(&[0x00, 0x01, 0x02, 0x33, 0x35, 0x33, 0x36, 0x07, 0x08, 0x09])
        .build()
        .unwrap()
        .scan("33 35")
        .unwrap();

    assert_eq!(result, Some(3));
}

#[test]
fn test_pattern_scan_nonunique() {
    let result = PatternScannerBuilder::builder()
        .with_bytes(&[0x00, 0x01, 0x02, 0x33, 0x35, 0x33, 0x35, 0x07, 0x08, 0x09])
        .build()
        .unwrap()
        .scan("33 35");

    assert_eq!(result, Err(PatternScannerError::NonUniquePattern));
}

#[test]
fn test_pattern_scan_all() {
    let result = PatternScannerBuilder::builder()
        .with_bytes(&[0x00, 0x01, 0x02, 0x33, 0x35, 0x33, 0x35, 0x07, 0x08, 0x09])
        .build()
        .unwrap()
        .scan_all("33 35")
        .unwrap();

    assert_eq!(result, vec![3, 5]);
}

#[test]
fn test_pattern_scan_all_1_million_bytes() {
    let mut bytes = vec![0u8; 1_000_000];
    bytes[600_000] = 0x33;
    bytes[600_001] = 0x35;

    let scanner = PatternScannerBuilder::builder()
        .with_bytes(&bytes)
        .with_threads(1)
        .build()
        .unwrap();

    let start = std::time::Instant::now();
    let result = scanner.scan_all("33 35").unwrap();
    let duration = start.elapsed();
    println!("Execution time: {:?}", duration);

    assert_eq!(result, vec![600_000]);
}

#[test]
fn sequential_first_match() {
    assert_eq!(st::pattern_scan(&UNIQUE, "33 35").unwrap(), Some(3));
    assert_eq!(st::pattern_scan(&TWICE, "33 35").unwrap(), Some(3));
    assert_eq!(st::pattern_scan(&TWICE, "35 ? 35").unwrap(), Some(4));
    assert_eq!(st::pattern_scan(&TWICE, "44").unwrap(), None);
}

#[test]
fn sequential_all_matches() {
    assert_eq!(st::pattern_scan_all(&TWICE, "33 35").unwrap(), vec![3, 5]);
    assert_eq!(st::pattern_scan_all(&TWICE, "33 ?").unwrap(), vec![3, 5]);
    assert_eq!(st::pattern_scan_all(&UNIQUE, "33 ?").unwrap(), vec![3, 5]);
    assert_eq!(st::pattern_scan_all(&UNIQUE, "07 08 09").unwrap(), vec![7]);
    assert_eq!(st::pattern_scan_all(&UNIQUE, "?").unwrap(), (0..10).collect::<Vec<usize>>());
}

#[test]
fn parallel_any_match() {
    assert_eq!(mt::pattern_scan(&UNIQUE, "33 35").unwrap(), Some(3));
    let found = mt::pattern_scan(&TWICE, "33 35").unwrap();
    assert!(found == Some(3) || found == Some(5));
    assert_eq!(mt::pattern_scan(&TWICE, "44 ?").unwrap(), None);
    assert_eq!(mt::pattern_scan(&TWICE, "09").unwrap(), Some(9));
}

#[test]
fn parallel_all_matches() {
    assert_eq!(mt::pattern_scan_all(&TWICE, "33 35").unwrap(), vec![3, 5]);
    assert_eq!(mt::pattern_scan_all(&UNIQUE, "00 ? 02").unwrap(), vec![0]);
    assert_eq!(mt::pattern_scan_all(&UNIQUE, "? ?").unwrap(), (0..9).collect::<Vec<usize>>());
}

#[test]
fn parallel_equals_sequential() {
    let mut buf = Vec::new();
    for i in 0..5000u32 {
        buf.push((i * 7 % 13) as u8);
    }
    for pattern in ["00", "07 ?", "? 01 ?", "0C 06", "05 ? ? 0B", "FF", "? ? ? ?"] {
        let seq = st::pattern_scan_all(&buf, pattern).unwrap();
        let par = mt::pattern_scan_all(&buf, pattern).unwrap();
        assert_eq!(seq, par);
        for threads in [1usize, 3, 8] {
            let scanner = PatternScannerBuilder::builder()
                .with_bytes(&buf)
                .with_threads(threads)
                .build()
                .unwrap();
            assert_eq!(scanner.scan_all(pattern).unwrap(), seq);
        }
    }
}

#[test]
fn oversized_or_empty_pattern_matches_nowhere() {
    assert_eq!(st::pattern_scan_all(&[0x33], "33 35").unwrap(), Vec::<usize>::new());
    assert_eq!(mt::pattern_scan_all(&[0x33], "33 35").unwrap(), Vec::<usize>::new());
    assert_eq!(st::pattern_scan_all(&[], "?").unwrap(), Vec::<usize>::new());
    assert_eq!(st::pattern_scan_all(&UNIQUE, "").unwrap(), Vec::<usize>::new());
    assert_eq!(mt::pattern_scan_all(&UNIQUE, " ").unwrap(), Vec::<usize>::new());
    assert_eq!(st::pattern_scan(&UNIQUE, "").unwrap(), None);
    assert_eq!(mt::pattern_scan(&UNIQUE, "").unwrap(), None);
    let scanner = PatternScannerBuilder::builder().with_bytes(&[1, 2]).build().unwrap();
    assert_eq!(scanner.scan("01 02 03").unwrap(), None);
    assert_eq!(scanner.scan_all("01 02 03").unwrap(), Vec::<usize>::new());
}

#[test]
fn unique_scan_outcomes() {
    let scanner = PatternScannerBuilder::builder().with_bytes(&TWICE).build().unwrap();
    assert_eq!(scanner.scan("07 08").unwrap(), Some(7));
    assert_eq!(scanner.scan("AB").unwrap(), None);
    assert_eq!(scanner.scan("33 35"), Err(PatternScannerError::NonUniquePattern));
    assert_eq!(scanner.scan_with_bytes(&UNIQUE, "33 35").unwrap(), Some(3));
    assert_eq!(scanner.scan_all_with_bytes(&UNIQUE, "33 ?").unwrap(), vec![3, 5]);
}

#[test]
fn wildcard_never_lowers_count() {
    let exact = st::pattern_scan_all(&UNIQUE, "33 35").unwrap();
    let relaxed = st::pattern_scan_all(&UNIQUE, "33 ?").unwrap();
    assert_eq!(exact, vec![3]);
    assert_eq!(relaxed, vec![3, 5]);
    assert!(relaxed.len() >= exact.len());
}

#[test]
fn scans_report_pattern_errors() {
    assert_eq!(
        st::pattern_scan(&UNIQUE, "33 3"),
        Err(PatternScannerError::ByteLength("3".to_owned()))
    );
    assert_eq!(
        mt::pattern_scan_all(&UNIQUE, "ZZ"),
        Err(PatternScannerError::InvalidByte("ZZ".to_owned(), 'Z'))
    );
    let scanner = PatternScannerBuilder::builder().with_bytes(&UNIQUE).build().unwrap();
    assert_eq!(
        scanner.scan("33 XY"),
        Err(PatternScannerError::InvalidByte("XY".to_owned(), 'X'))
    );
    assert_eq!(
        scanner.scan_all("335"),
        Err(PatternScannerError::ByteLength("335".to_owned()))
    );
}

#[test]
fn pool_has_the_workers_asked_for() {
    for threads in [1usize, 2, 3, 5] {
        let scanner = PatternScannerBuilder::builder()
            .with_bytes(&UNIQUE)
            .with_threads(threads)
            .build()
            .unwrap();
        assert_eq!(scanner.num_workers(), threads);
    }
    let scanner = PatternScannerBuilder::builder().build().unwrap();
    assert!(scanner.num_workers() >= 1);
}

#[test]
fn partition_shares_offsets_evenly() {
    assert_eq!(mt::partition(10, 3), vec![(0, 4), (4, 8), (8, 10)]);
    assert_eq!(mt::partition(9, 3), vec![(0, 3), (3, 6), (6, 9)]);
    assert_eq!(mt::partition(2, 8), vec![(0, 1), (1, 2)]);
    assert_eq!(mt::partition(7, 1), vec![(0, 7)]);
    assert_eq!(mt::partition(0, 4), Vec::<(usize, usize)>::new());
}
