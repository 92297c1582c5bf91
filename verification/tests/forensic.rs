use qcrypt::forensic::{Anomaly, ForensicScanner, ScanAction, ScanError, ScanNote};

#[test]
fn a_small_file_is_refused() {
    assert_eq!(ForensicScanner::start(100).err(), Some(ScanError::FileTooSmall { size: 100 }));
}

#[test]
fn a_well_formed_archive_scans_clean() {
    // header, one 116-byte data frame, the 16-byte EOF marker, a 72-byte manifest
    let size = 1580 + (4 + 116) + (4 + 16) + (4 + 72);
    let mut s = ForensicScanner::start(size).unwrap();
    assert_eq!(s.on_length(116u32.to_be_bytes()), ScanAction::SkipChunk(116));
    assert_eq!(s.on_chunk_skipped(), None);
    assert_eq!(s.on_length(16u32.to_be_bytes()), ScanAction::SkipChunk(16));
    assert_eq!(s.on_chunk_skipped(), Some(ScanNote::EofMarker { chunk_idx: 1, offset: 1580 + 120 + 20 }));
    assert_eq!(s.on_length(72u32.to_be_bytes()), ScanAction::ReadManifest(72));
    assert_eq!(s.on_manifest(true), Some(ScanNote::Manifest { offset: 1720, wire_len: 72 }));
    let sum = s.summary();
    assert_eq!(sum.data_chunks, 1);
    assert_eq!(sum.total_plaintext, 100);
    assert!(sum.found_eof && sum.found_manifest);
    assert_eq!(sum.trailing_bytes, 0);
    assert_eq!(sum.anomaly_count, 0);
}

#[test]
fn corrupt_lengths_are_reported() {
    let mut s = ForensicScanner::start(4000).unwrap();
    assert_eq!(s.on_length([0xff, 0xff, 0xff, 0xff]), ScanAction::Stop);
    assert!(matches!(s.anomalies[0], Anomaly::CorruptLength { offset: 1580, chunk_len: 0xffff_ffff, .. }));

    let mut s = ForensicScanner::start(4000).unwrap();
    assert_eq!(s.on_length(3u32.to_be_bytes()), ScanAction::Stop);
    assert!(matches!(s.anomalies[0], Anomaly::InvalidLength { chunk_len: 3, .. }));

    let mut s = ForensicScanner::start(1600).unwrap();
    assert_eq!(s.on_length(100u32.to_be_bytes()), ScanAction::Stop);
    assert_eq!(
        s.anomalies[0],
        Anomaly::Truncated { offset: 1584, chunk_len: 100, remaining: 16, chunk_idx: 0, total_plaintext: 0 }
    );
}

#[test]
fn missing_eof_and_manifest_problems() {
    let mut s = ForensicScanner::start(1580 + 20).unwrap();
    assert_eq!(s.on_length(16u32.to_be_bytes()), ScanAction::SkipChunk(16));
    s.on_chunk_skipped();
    assert_eq!(s.on_length(2u32.to_be_bytes()), ScanAction::Stop);
    assert_eq!(s.anomalies[0], Anomaly::InvalidManifestLength { offset: 1600, chunk_len: 2 });

    let mut s = ForensicScanner::start(1580 + 40).unwrap();
    s.on_length(32u32.to_be_bytes());
    s.on_chunk_skipped();
    s.on_end_of_file();
    assert_eq!(s.anomalies[0], Anomaly::MissingEof { offset: 1616, chunk_idx: 1 });
    assert_eq!(s.summary().trailing_bytes, 4);

    let mut s = ForensicScanner::start(1580 + 30).unwrap();
    s.on_length(16u32.to_be_bytes());
    s.on_chunk_skipped();
    assert_eq!(s.on_length(64u32.to_be_bytes()), ScanAction::ReadManifest(64));
    assert_eq!(s.on_manifest(false), None);
    assert_eq!(s.anomalies[0], Anomaly::ManifestTruncated { offset: 1604 });
}

#[test]
fn read_errors_are_reported() {
    let mut s = ForensicScanner::start(2000).unwrap();
    s.on_read_error("device gone".to_string());
    assert_eq!(s.anomalies[0], Anomaly::IoError { offset: 1580, detail: "device gone".to_string() });
    assert_eq!(s.summary().anomaly_count, 1);
}

#[test]
fn an_archive_written_by_the_sealer_scans_clean() {
    let key = qcrypt::hybrid::StreamKey { aes_key: [1u8; 32], base_nonce: [2u8; 12], aad: vec![0u8; 1580] };
    let mut sealer = qcrypt::hybrid::StreamSealer::new(key);
    let mut archive = vec![0u8; 1580];
    archive.extend(sealer.seal_chunk(&vec![7u8; 1000]));
    archive.extend(sealer.seal_chunk(&vec![8u8; 5]));
    archive.extend(sealer.finish());

    let mut s = ForensicScanner::start(archive.len() as u64).unwrap();
    let mut pos = 1580;
    loop {
        if pos + 4 > archive.len() {
            s.on_end_of_file();
            break;
        }
        let raw: [u8; 4] = archive[pos..pos + 4].try_into().unwrap();
        match s.on_length(raw) {
            ScanAction::Stop => break,
            ScanAction::ReadLength => {}
            ScanAction::SkipChunk(n) => {
                pos += 4 + n as usize;
                s.on_chunk_skipped();
            }
            ScanAction::ReadManifest(n) => {
                let ok = pos + 4 + n as usize <= archive.len();
                s.on_manifest(ok);
                break;
            }
        }
    }
    let sum = s.summary();
    assert_eq!(sum.anomaly_count, 0);
    assert_eq!(sum.data_chunks, 2);
    assert_eq!(sum.total_plaintext, 1005);
    assert!(sum.found_eof && sum.found_manifest);
    assert_eq!(sum.last_good_offset, archive.len() as u64);
    assert_eq!(sum.trailing_bytes, 0);
}

/// Scans `archive` as the command line does and returns the scanner.
fn scan_bytes(archive: &[u8]) -> ForensicScanner {
    let mut s = ForensicScanner::start(archive.len() as u64).unwrap();
    let mut pos = 1580;
    loop {
        if pos + 4 > archive.len() {
            s.on_end_of_file();
            break;
        }
        let raw: [u8; 4] = archive[pos..pos + 4].try_into().unwrap();
        match s.on_length(raw) {
            ScanAction::Stop => break,
            ScanAction::ReadLength => {}
            ScanAction::SkipChunk(n) => {
                pos += 4 + n as usize;
                s.on_chunk_skipped();
            }
            ScanAction::ReadManifest(n) => {
                let ok = pos + 4 + n as usize <= archive.len();
                s.on_manifest(ok);
                break;
            }
        }
    }
    s
}

#[test]
fn an_archive_cut_before_its_eof_marker_ends_is_reported() {
    let key = qcrypt::hybrid::StreamKey { aes_key: [1u8; 32], base_nonce: [2u8; 12], aad: vec![0u8; 1580] };
    let mut sealer = qcrypt::hybrid::StreamSealer::new(key);
    let mut archive = vec![0u8; 1580];
    archive.extend(sealer.seal_chunk(&vec![7u8; 1000]));
    archive.extend(sealer.seal_chunk(&vec![8u8; 5]));
    archive.extend(sealer.finish());
    let ends = [1580usize, 1580 + 4 + 1016, 1580 + 4 + 1016 + 4 + 21];
    let eof_end = ends[2] + 4 + 16;
    for m in 1580..eof_end {
        let sum = scan_bytes(&archive[..m]).summary();
        assert_eq!(sum.anomaly_count, 1, "cut at {}", m);
        assert!(!sum.found_eof && !sum.found_manifest);
        let last = *ends.iter().filter(|&&e| e <= m).last().unwrap();
        assert_eq!(sum.last_good_offset, last as u64, "cut at {}", m);
    }
}
