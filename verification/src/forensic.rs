//! Structural scan of an archive without its key.
//!
//! The scan reads frame lengths one after the other and skips the frame
//! bodies, checking each length against the format (16 bytes of tag at
//! least, one plaintext chunk plus tag at most, never past the end of the
//! file), spotting the EOF marker (a 16-byte frame) and the manifest frame
//! after it, and counting the plaintext the frames imply. The reading is
//! done by the caller; the scanner decides what to read next and records the
//! anomalies it finds.

use vstd::prelude::*;
use crate::encoding::{spec_u32_from_be, u32_from_be};
use crate::hybrid::{CHUNK_SIZE, HEADER_SIZE, TAG_SIZE, MANIFEST_SIZE};

verus! {

/// Largest frame body: a full plaintext chunk and its tag.
pub const MAX_ENCRYPTED_CHUNK: u64 = 1048592;

/// Smallest plausible manifest frame body.
pub const MIN_MANIFEST_WIRE: u64 = 16;

/// Largest plausible manifest frame body.
pub const MAX_MANIFEST_WIRE: u64 = 256;

/// Bytes per reported gigabyte of plaintext.
pub const GIB: u64 = 1073741824;

/// Largest file size the scanner's counters are sized for (2^62 bytes).
pub const MAX_SCAN_FILE: u64 = 0x4000_0000_0000_0000;

/// A structural problem found in an archive.
#[derive(Debug, PartialEq, Eq)]
pub enum Anomaly {
    /// The file ends, at `offset`, before any EOF marker.
    MissingEof { offset: u64, chunk_idx: u64 },
    /// Reading a length at `offset` failed for another reason.
    IoError { offset: u64, detail: String },
    /// After the EOF marker, a frame length that no manifest has.
    InvalidManifestLength { offset: u64, chunk_len: u64 },
    /// The manifest frame's body could not be read in full.
    ManifestTruncated { offset: u64 },
    /// A frame length above one full chunk and its tag.
    CorruptLength { offset: u64, chunk_len: u64, chunk_idx: u64, raw: [u8; 4], total_plaintext: u64 },
    /// A frame length below one tag.
    InvalidLength { offset: u64, chunk_len: u64, chunk_idx: u64, raw: [u8; 4] },
    /// A frame body that runs past the end of the file.
    Truncated { offset: u64, chunk_len: u64, remaining: u64, chunk_idx: u64, total_plaintext: u64 },
}

/// Progress worth reporting while scanning.
#[derive(Debug, Clone, Copy, PartialEq, Eq)]
pub enum ScanNote {
    /// The EOF marker is frame `chunk_idx`, ending at `offset`.
    EofMarker { chunk_idx: u64, offset: u64 },
    /// Another whole gigabyte of plaintext was passed.
    Progress { total_plaintext: u64, chunk_idx: u64, offset: u64 },
    /// The manifest frame starts at `offset` and has `wire_len` body bytes.
    Manifest { offset: u64, wire_len: u64 },
}

/// What the caller must read next.
#[derive(Debug, Clone, Copy, PartialEq, Eq)]
pub enum ScanAction {
    /// Read the next 4-byte frame length.
    ReadLength,
    /// Skip a data frame body of this many bytes.
    SkipChunk(u64),
    /// Read a manifest frame body of this many bytes.
    ReadManifest(u64),
    /// The scan is over.
    Stop,
}

/// Why a scan could not start.
#[derive(Debug, Clone, Copy, PartialEq, Eq)]
pub enum ScanError {
    /// The file is shorter than an archive header.
    FileTooSmall { size: u64 },
}

/// The scanner's state.
pub struct ForensicScanner {
    pub file_size: u64,
    /// Offset of the next unread byte.
    pub offset: u64,
    /// Index of the next frame.
    pub chunk_idx: u64,
    pub total_plaintext: u64,
    pub anomalies: Vec<Anomaly>,
    /// End of the last frame that was read whole.
    pub last_good_offset: u64,
    pub last_report_gb: u64,
    pub found_eof: bool,
    pub found_manifest: bool,
    /// A frame body of this length (and whether it is the EOF marker) is
    /// waiting to be skipped.
    pub pending_chunk: Option<(u64, bool)>,
    /// A manifest body of this length is waiting to be read.
    pub pending_manifest: Option<u64>,
    pub finished: bool,
}

/// The scanner's state as the scan model sees it: the counters, what is
/// pending, and how many anomalies were recorded.
pub struct ScanState {
    pub offset: u64,
    pub chunk_idx: u64,
    pub total: u64,
    pub last_good: u64,
    pub found_eof: bool,
    pub found_manifest: bool,
    pub finished: bool,
    pub pending_chunk: Option<(u64, bool)>,
    pub pending_manifest: Option<u64>,
    pub anomalies: nat,
}

/// The state a scan starts in, after the header.
pub open spec fn initial_scan() -> ScanState {
    ScanState {
        offset: HEADER_SIZE as u64,
        chunk_idx: 0,
        total: 0,
        last_good: HEADER_SIZE as u64,
        found_eof: false,
        found_manifest: false,
        finished: false,
        pending_chunk: None,
        pending_manifest: None,
        anomalies: 0,
    }
}

/// The scan stops on an anomaly.
pub open spec fn stop_with_anomaly(st: ScanState) -> ScanState {
    ScanState { finished: true, anomalies: st.anomalies + 1, ..st }
}

/// After a frame length `len` was read.
pub open spec fn step_length(st: ScanState, file_size: u64, len: u64) -> ScanState {
    if st.found_eof {
        if len < MIN_MANIFEST_WIRE || len > MAX_MANIFEST_WIRE {
            stop_with_anomaly(st)
        } else {
            ScanState { pending_manifest: Some(len), ..st }
        }
    } else if len > MAX_ENCRYPTED_CHUNK || len < TAG_SIZE {
        stop_with_anomaly(st)
    } else if len > file_size - (st.offset + 4) {
        stop_with_anomaly(ScanState { offset: (st.offset + 4) as u64, ..st })
    } else {
        ScanState { offset: (st.offset + 4) as u64, pending_chunk: Some((len, len == TAG_SIZE)), ..st }
    }
}

/// After the pending frame body was skipped.
pub open spec fn step_skip(st: ScanState) -> ScanState {
    let (len, eof) = st.pending_chunk.unwrap();
    let end = (st.offset + len) as u64;
    if eof {
        ScanState {
            offset: end,
            last_good: end,
            chunk_idx: (st.chunk_idx + 1) as u64,
            found_eof: true,
            pending_chunk: None,
            ..st
        }
    } else {
        ScanState {
            offset: end,
            last_good: end,
            chunk_idx: (st.chunk_idx + 1) as u64,
            total: (st.total + (len - TAG_SIZE)) as u64,
            pending_chunk: None,
            ..st
        }
    }
}

/// After the pending manifest body was read (`ok`) or could not be.
pub open spec fn step_manifest(st: ScanState, ok: bool) -> ScanState {
    let len = st.pending_manifest.unwrap();
    if ok {
        let end = (st.offset + 4 + len) as u64;
        ScanState {
            offset: end,
            last_good: end,
            found_manifest: true,
            finished: true,
            pending_manifest: None,
            ..st
        }
    } else {
        ScanState { finished: true, pending_manifest: None, anomalies: st.anomalies + 1, ..st }
    }
}

/// After the file ended where a frame length was expected.
pub open spec fn step_end(st: ScanState) -> ScanState {
    ScanState { finished: true, anomalies: if st.found_eof { st.anomalies } else { st.anomalies + 1 }, ..st }
}

/// A scan of a file of `file_size` bytes whose frames have the lengths
/// `lens`, driven as `ScanAction` asks: read a length, then skip the frame
/// body or read the manifest body (a read succeeds when the file holds the
/// bytes), until the scan stops or the file ends.
pub open spec fn scan_run(st: ScanState, file_size: u64, lens: Seq<u64>) -> ScanState
    decreases lens.len(),
{
    if st.finished {
        st
    } else if lens.len() == 0 {
        step_end(st)
    } else {
        let s1 = step_length(st, file_size, lens[0]);
        if s1.finished {
            s1
        } else if s1.pending_manifest is Some {
            step_manifest(s1, s1.offset + 4 + lens[0] <= file_size)
        } else {
            scan_run(step_skip(s1), file_size, lens.drop_first())
        }
    }
}

impl ForensicScanner {
    /// The counters stay inside the file (with slack for the last length
    /// read) and below their limits.
    pub open spec fn wf(&self) -> bool {
        &&& self.file_size < MAX_SCAN_FILE
        &&& HEADER_SIZE <= self.last_good_offset <= self.offset
        &&& self.last_good_offset <= self.file_size + 4 + MAX_MANIFEST_WIRE
        &&& self.offset <= self.file_size + 4 + MAX_MANIFEST_WIRE
        &&& self.total_plaintext <= self.offset
        &&& self.chunk_idx <= self.offset
        &&& self.pending_chunk matches Some((len, eof)) ==> self.offset + len <= self.file_size
            && (eof <==> len == TAG_SIZE) && TAG_SIZE <= len <= MAX_ENCRYPTED_CHUNK
            && self.pending_manifest is None && !self.finished
        &&& self.pending_manifest matches Some(len) ==> len <= MAX_MANIFEST_WIRE && self.found_eof
            && !self.finished && self.offset <= self.file_size
        &&& !self.found_eof ==> !self.found_manifest
        &&& self.found_eof ==> self.chunk_idx > 0
        &&& self.awaiting_length() ==> self.offset <= self.file_size
    }

    /// The scan model's view of the scanner.
    pub open spec fn scan_state(&self) -> ScanState {
        ScanState {
            offset: self.offset,
            chunk_idx: self.chunk_idx,
            total: self.total_plaintext,
            last_good: self.last_good_offset,
            found_eof: self.found_eof,
            found_manifest: self.found_manifest,
            finished: self.finished,
            pending_chunk: self.pending_chunk,
            pending_manifest: self.pending_manifest,
            anomalies: self.anomalies@.len(),
        }
    }

    /// Reading nothing is pending and the scan goes on.
    pub open spec fn awaiting_length(&self) -> bool {
        !self.finished && self.pending_chunk is None && self.pending_manifest is None
    }

    /// Starts a scan of a file of `file_size` bytes whose header the caller
    /// will have read.
    pub fn start(file_size: u64) -> (r: Result<ForensicScanner, ScanError>)
        requires
            file_size < MAX_SCAN_FILE,
        ensures
            file_size < HEADER_SIZE ==> r == Err::<ForensicScanner, ScanError>(ScanError::FileTooSmall { size: file_size }),
            file_size >= HEADER_SIZE ==> (r matches Ok(s) && s.wf() && s.awaiting_length() && s.file_size
                == file_size && s.offset == HEADER_SIZE && s.last_good_offset == HEADER_SIZE
                && s.chunk_idx == 0 && s.total_plaintext == 0 && s.anomalies@.len() == 0 && !s.found_eof
                && !s.found_manifest && s.last_report_gb == 0 && s.scan_state() == initial_scan()),
    {
        if file_size < HEADER_SIZE as u64 {
            return Err(ScanError::FileTooSmall { size: file_size });
        }
        Ok(ForensicScanner {
            file_size,
            offset: HEADER_SIZE as u64,
            chunk_idx: 0,
            total_plaintext: 0,
            anomalies: Vec::new(),
            last_good_offset: HEADER_SIZE as u64,
            last_report_gb: 0,
            found_eof: false,
            found_manifest: false,
            pending_chunk: None,
            pending_manifest: None,
            finished: false,
        })
    }

    /// The file ended where a frame length was expected.
    pub fn on_end_of_file(&mut self)
        requires
            old(self).wf(),
            old(self).awaiting_length(),
        ensures
            final(self).wf(),
            final(self).finished,
            final(self).anomalies@ == if old(self).found_eof {
                old(self).anomalies@
            } else {
                old(self).anomalies@.push(Anomaly::MissingEof { offset: old(self).offset, chunk_idx: old(self).chunk_idx })
            },
            final(self).same_counters(*old(self)),
            final(self).scan_state() == step_end(old(self).scan_state()),
    {
        if !self.found_eof {
            self.anomalies.push(Anomaly::MissingEof { offset: self.offset, chunk_idx: self.chunk_idx });
        }
        self.finished = true;
    }

    /// Reading a frame length failed for a reason other than the end of the
    /// file.
    pub fn on_read_error(&mut self, detail: String)
        requires
            old(self).wf(),
            old(self).awaiting_length(),
        ensures
            final(self).wf(),
            final(self).finished,
            final(self).anomalies@ == old(self).anomalies@.push(Anomaly::IoError { offset: old(self).offset, detail }),
            final(self).same_counters(*old(self)),
            final(self).scan_state() == stop_with_anomaly(old(self).scan_state()),
    {
        self.anomalies.push(Anomaly::IoError { offset: self.offset, detail });
        self.finished = true;
    }

    /// A frame length was read. A data frame length is checked against the
    /// format and the end of the file; after the EOF marker the length must
    /// be that of a manifest.
    pub fn on_length(&mut self, raw: [u8; 4]) -> (act: ScanAction)
        requires
            old(self).wf(),
            old(self).awaiting_length(),
        ensures
            final(self).wf(),
            ({
                let o = *old(self);
                let len = spec_u32_from_be(raw@) as u64;
                if o.found_eof {
                    if len < MIN_MANIFEST_WIRE || len > MAX_MANIFEST_WIRE {
                        &&& act == ScanAction::Stop
                        &&& final(self).finished
                        &&& final(self).same_counters(o)
                        &&& final(self).anomalies@ == o.anomalies@.push(Anomaly::InvalidManifestLength { offset: o.offset, chunk_len: len })
                    } else {
                        &&& act == ScanAction::ReadManifest(len)
                        &&& final(self).pending_manifest == Some(len)
                        &&& final(self).pending_chunk is None
                        &&& !final(self).finished
                        &&& final(self).same_counters(o)
                        &&& final(self).anomalies@ == o.anomalies@
                    }
                } else if len > MAX_ENCRYPTED_CHUNK {
                    &&& act == ScanAction::Stop
                    &&& final(self).finished
                    &&& final(self).same_counters(o)
                    &&& final(self).anomalies@ == o.anomalies@.push(Anomaly::CorruptLength {
                        offset: o.offset, chunk_len: len, chunk_idx: o.chunk_idx, raw, total_plaintext: o.total_plaintext })
                } else if len < TAG_SIZE {
                    &&& act == ScanAction::Stop
                    &&& final(self).finished
                    &&& final(self).same_counters(o)
                    &&& final(self).anomalies@ == o.anomalies@.push(Anomaly::InvalidLength {
                        offset: o.offset, chunk_len: len, chunk_idx: o.chunk_idx, raw })
                } else if len > o.file_size - (o.offset + 4) {
                    &&& act == ScanAction::Stop
                    &&& final(self).finished
                    &&& final(self).offset == o.offset + 4
                    &&& final(self).anomalies@ == o.anomalies@.push(Anomaly::Truncated {
                        offset: (o.offset + 4) as u64, chunk_len: len,
                        remaining: if o.file_size >= o.offset + 4 { (o.file_size - (o.offset + 4)) as u64 } else { 0 },
                        chunk_idx: o.chunk_idx, total_plaintext: o.total_plaintext })
                } else {
                    &&& act == ScanAction::SkipChunk(len)
                    &&& !final(self).finished
                    &&& final(self).offset == o.offset + 4
                    &&& final(self).pending_chunk == Some((len, len == TAG_SIZE))
                    &&& final(self).pending_manifest is None
                    &&& final(self).anomalies@ == o.anomalies@
                }
            }),
            final(self).file_size == old(self).file_size,
            final(self).chunk_idx == old(self).chunk_idx,
            final(self).total_plaintext == old(self).total_plaintext,
            final(self).last_good_offset == old(self).last_good_offset,
            final(self).last_report_gb == old(self).last_report_gb,
            final(self).found_eof == old(self).found_eof,
            final(self).found_manifest == old(self).found_manifest,
            final(self).scan_state() == step_length(
                old(self).scan_state(),
                old(self).file_size,
                spec_u32_from_be(raw@) as u64,
            ),
    {
        let chunk_len = u32_from_be(&raw) as u64;
        if self.found_eof {
            if chunk_len < MIN_MANIFEST_WIRE || chunk_len > MAX_MANIFEST_WIRE {
                self.anomalies.push(Anomaly::InvalidManifestLength { offset: self.offset, chunk_len });
                self.finished = true;
                return ScanAction::Stop;
            }
            self.pending_manifest = Some(chunk_len);
            return ScanAction::ReadManifest(chunk_len);
        }
        if chunk_len > MAX_ENCRYPTED_CHUNK {
            self.anomalies.push(
                Anomaly::CorruptLength {
                    offset: self.offset,
                    chunk_len,
                    chunk_idx: self.chunk_idx,
                    raw,
                    total_plaintext: self.total_plaintext,
                },
            );
            self.finished = true;
            return ScanAction::Stop;
        }
        if chunk_len < TAG_SIZE as u64 {
            self.anomalies.push(
                Anomaly::InvalidLength { offset: self.offset, chunk_len, chunk_idx: self.chunk_idx, raw },
            );
            self.finished = true;
            return ScanAction::Stop;
        }
        self.offset = self.offset + 4;
        let remaining: u64 = if self.file_size >= self.offset {
            self.file_size - self.offset
        } else {
            0
        };
        if chunk_len > remaining {
            self.anomalies.push(
                Anomaly::Truncated {
                    offset: self.offset,
                    chunk_len,
                    remaining,
                    chunk_idx: self.chunk_idx,
                    total_plaintext: self.total_plaintext,
                },
            );
            self.finished = true;
            return ScanAction::Stop;
        }
        self.pending_chunk = Some((chunk_len, chunk_len == TAG_SIZE as u64));
        ScanAction::SkipChunk(chunk_len)
    }

    /// The pending data frame body was skipped. The EOF marker is noted; a
    /// data frame adds its plaintext (body less tag) to the count, and each
    /// newly completed gigabyte is noted.
    pub fn on_chunk_skipped(&mut self) -> (note: Option<ScanNote>)
        requires
            old(self).wf(),
            old(self).pending_chunk is Some,
        ensures
            final(self).wf(),
            final(self).awaiting_length(),
            final(self).scan_state() == step_skip(old(self).scan_state()),
            ({
                let o = *old(self);
                let (len, eof) = o.pending_chunk.unwrap();
                let end = (o.offset + len) as u64;
                &&& final(self).offset == end
                &&& final(self).last_good_offset == end
                &&& final(self).chunk_idx == o.chunk_idx + 1
                &&& final(self).anomalies@ == o.anomalies@
                &&& final(self).file_size == o.file_size
                &&& final(self).found_manifest == o.found_manifest
                &&& if eof {
                    &&& final(self).found_eof
                    &&& final(self).total_plaintext == o.total_plaintext
                    &&& final(self).last_report_gb == o.last_report_gb
                    &&& note == Some(ScanNote::EofMarker { chunk_idx: o.chunk_idx, offset: end })
                } else {
                    let total = (o.total_plaintext + (len - TAG_SIZE)) as u64;
                    let gb = total / GIB;
                    &&& final(self).found_eof == o.found_eof
                    &&& final(self).total_plaintext == total
                    &&& if gb > o.last_report_gb {
                        &&& final(self).last_report_gb == gb
                        &&& note == Some(ScanNote::Progress { total_plaintext: total, chunk_idx: o.chunk_idx, offset: end })
                    } else {
                        &&& final(self).last_report_gb == o.last_report_gb
                        &&& note is None
                    }
                }
            }),
    {
        let (len, eof) = match self.pending_chunk {
            Some(p) => p,
            None => (0, false),
        };
        self.pending_chunk = None;
        self.last_good_offset = self.offset + len;
        self.offset = self.last_good_offset;
        if eof {
            self.found_eof = true;
            let note = ScanNote::EofMarker { chunk_idx: self.chunk_idx, offset: self.offset };
            self.chunk_idx = self.chunk_idx + 1;
            return Some(note);
        }
        self.total_plaintext = self.total_plaintext + (len - TAG_SIZE as u64);
        let gb = self.total_plaintext / GIB;
        let note = if gb > self.last_report_gb {
            self.last_report_gb = gb;
            Some(ScanNote::Progress { total_plaintext: self.total_plaintext, chunk_idx: self.chunk_idx, offset: self.offset })
        } else {
            None
        };
        self.chunk_idx = self.chunk_idx + 1;
        note
    }

    /// The pending manifest body was read (`read_ok`) or could not be read
    /// in full. Either way the scan is over.
    pub fn on_manifest(&mut self, read_ok: bool) -> (note: Option<ScanNote>)
        requires
            old(self).wf(),
            old(self).pending_manifest is Some,
        ensures
            final(self).wf(),
            final(self).finished,
            final(self).scan_state() == step_manifest(old(self).scan_state(), read_ok),
            ({
                let o = *old(self);
                let len = o.pending_manifest.unwrap();
                &&& final(self).file_size == o.file_size
                &&& final(self).chunk_idx == o.chunk_idx
                &&& final(self).total_plaintext == o.total_plaintext
                &&& final(self).found_eof == o.found_eof
                &&& final(self).last_report_gb == o.last_report_gb
                &&& if read_ok {
                    &&& final(self).found_manifest
                    &&& final(self).offset == o.offset + 4 + len
                    &&& final(self).last_good_offset == o.offset + 4 + len
                    &&& final(self).anomalies@ == o.anomalies@
                    &&& note == Some(ScanNote::Manifest { offset: o.offset, wire_len: len })
                } else {
                    &&& final(self).found_manifest == o.found_manifest
                    &&& final(self).offset == o.offset
                    &&& final(self).last_good_offset == o.last_good_offset
                    &&& final(self).anomalies@ == o.anomalies@.push(Anomaly::ManifestTruncated { offset: (o.offset + 4) as u64 })
                    &&& note is None
                }
            }),
    {
        let len = match self.pending_manifest {
            Some(l) => l,
            None => 0,
        };
        self.pending_manifest = None;
        self.finished = true;
        if read_ok {
            let start = self.offset;
            self.found_manifest = true;
            self.offset = self.offset + 4 + len;
            self.last_good_offset = self.offset;
            Some(ScanNote::Manifest { offset: start, wire_len: len })
        } else {
            self.anomalies.push(Anomaly::ManifestTruncated { offset: self.offset + 4 });
            None
        }
    }

    /// The figures reported at the end of a scan.
    pub fn summary(&self) -> (r: ScanSummary)
        requires
            self.wf(),
        ensures
            r.data_chunks == if self.found_eof { self.chunk_idx - 1 } else { self.chunk_idx as int },
            r.total_plaintext == self.total_plaintext,
            r.found_eof == self.found_eof,
            r.found_manifest == self.found_manifest,
            r.last_good_offset == self.last_good_offset,
            r.file_size == self.file_size,
            r.trailing_bytes == if self.file_size >= self.last_good_offset {
                self.file_size - self.last_good_offset
            } else {
                0
            },
            r.anomaly_count == self.anomalies@.len(),
    {
        ScanSummary {
            data_chunks: if self.found_eof { self.chunk_idx - 1 } else { self.chunk_idx },
            total_plaintext: self.total_plaintext,
            found_eof: self.found_eof,
            found_manifest: self.found_manifest,
            last_good_offset: self.last_good_offset,
            file_size: self.file_size,
            trailing_bytes: if self.file_size >= self.last_good_offset {
                self.file_size - self.last_good_offset
            } else {
                0
            },
            anomaly_count: self.anomalies.len(),
        }
    }

    /// The counters and flags are those of `other`.
    pub open spec fn same_counters(&self, other: ForensicScanner) -> bool {
        &&& self.file_size == other.file_size
        &&& self.offset == other.offset
        &&& self.chunk_idx == other.chunk_idx
        &&& self.total_plaintext == other.total_plaintext
        &&& self.last_good_offset == other.last_good_offset
        &&& self.last_report_gb == other.last_report_gb
        &&& self.found_eof == other.found_eof
        &&& self.found_manifest == other.found_manifest
    }
}


/// The figures reported at the end of a scan.
#[derive(Debug, Clone, Copy, PartialEq, Eq)]
pub struct ScanSummary {
    /// Data frames before the EOF marker (all frames read, without one).
    pub data_chunks: u64,
    pub total_plaintext: u64,
    pub found_eof: bool,
    pub found_manifest: bool,
    pub last_good_offset: u64,
    pub file_size: u64,
    pub trailing_bytes: u64,
    pub anomaly_count: usize,
}

// ─── Scanning what the sealer writes ─────────────────────────────

/// The frame lengths of an archive whose data chunks carry `sizes` bytes of
/// plaintext: one frame per chunk (plaintext and tag), the EOF marker (a
/// tag alone) and the manifest frame.
pub open spec fn sealed_frame_lens(sizes: Seq<u64>) -> Seq<u64> {
    sizes.map_values(|n: u64| (n + TAG_SIZE) as u64) + seq![TAG_SIZE as u64, (MANIFEST_SIZE + TAG_SIZE) as u64]
}

/// Bytes taken by frames of lengths `lens`, each with its 4-byte length.
pub open spec fn frames_bytes(lens: Seq<u64>) -> int
    decreases lens.len(),
{
    if lens.len() == 0 {
        0
    } else {
        4 + lens[0] + frames_bytes(lens.drop_first())
    }
}

/// The plaintext bytes of chunks of `sizes` bytes.
pub open spec fn sizes_total(sizes: Seq<u64>) -> int
    decreases sizes.len(),
{
    if sizes.len() == 0 {
        0
    } else {
        sizes[0] + sizes_total(sizes.drop_first())
    }
}

/// Every chunk holds between one byte and one full chunk of plaintext.
pub open spec fn valid_sizes(sizes: Seq<u64>) -> bool {
    forall|i: int| 0 <= i < sizes.len() ==> 0 < #[trigger] sizes[i] <= CHUNK_SIZE
}

proof fn lemma_frames_bytes_bound(lens: Seq<u64>)
    ensures
        frames_bytes(lens) >= 4 * lens.len(),
        sealed_frame_lens(Seq::empty()) =~= seq![TAG_SIZE as u64, (MANIFEST_SIZE + TAG_SIZE) as u64],
    decreases lens.len(),
{
    if lens.len() > 0 {
        lemma_frames_bytes_bound(lens.drop_first());
    }
}

#[verifier::rlimit(40)]
proof fn lemma_scan_sealed_from(st: ScanState, file_size: u64, sizes: Seq<u64>)
    requires
        valid_sizes(sizes),
        !st.finished,
        !st.found_eof,
        !st.found_manifest,
        st.pending_chunk is None,
        st.pending_manifest is None,
        st.last_good == st.offset,
        file_size == st.offset + frames_bytes(sealed_frame_lens(sizes)),
        st.chunk_idx <= st.offset,
        st.total <= st.offset,
    ensures
        scan_run(st, file_size, sealed_frame_lens(sizes)) == (ScanState {
            offset: file_size,
            last_good: file_size,
            chunk_idx: (st.chunk_idx + sizes.len() + 1) as u64,
            total: (st.total + sizes_total(sizes)) as u64,
            found_eof: true,
            found_manifest: true,
            finished: true,
            pending_chunk: None,
            pending_manifest: None,
            anomalies: st.anomalies,
        }),
    decreases sizes.len(),
{
    let lens = sealed_frame_lens(sizes);
    if sizes.len() == 0 {
        lemma_frames_bytes_bound(lens);
        assert(lens =~= seq![16u64, 72u64]);
        assert(lens.drop_first() =~= seq![72u64]);
        assert(lens.drop_first().drop_first() =~= Seq::<u64>::empty());
        assert(frames_bytes(lens.drop_first().drop_first()) == 0);
        assert(frames_bytes(lens.drop_first()) == 76);
        assert(frames_bytes(lens) == 96);
        let s1 = step_length(st, file_size, 16);
        assert(s1.pending_chunk == Some((16u64, true)));
        let s2 = step_skip(s1);
        assert(s2.found_eof && s2.offset == st.offset + 20);
        assert(scan_run(st, file_size, lens) == scan_run(s2, file_size, lens.drop_first()));
        let s3 = step_length(s2, file_size, 72);
        assert(s3.pending_manifest == Some(72u64));
        assert(s3.offset + 4 + 72 <= file_size);
        assert(sizes_total(sizes) == 0);
    } else {
        let n0 = sizes[0];
        let rest = sizes.drop_first();
        assert(0 < n0 <= CHUNK_SIZE);
        assert(valid_sizes(rest)) by {
            assert forall|i: int| 0 <= i < rest.len() implies 0 < #[trigger] rest[i] <= CHUNK_SIZE by {
                assert(rest[i] == sizes[i + 1]);
            }
        }
        assert(lens[0] == n0 + 16);
        assert(lens.drop_first() =~= sealed_frame_lens(rest));
        lemma_frames_bytes_bound(sealed_frame_lens(rest));
        let len0 = (n0 + 16) as u64;
        let s1 = step_length(st, file_size, len0);
        assert(s1.pending_chunk == Some((len0, false)));
        let s2 = step_skip(s1);
        assert(s2.offset == st.offset + 4 + len0);
        assert(scan_run(st, file_size, lens) == scan_run(s2, file_size, lens.drop_first()));
        lemma_scan_sealed_from(s2, file_size, rest);
    }
}

/// The frame lengths a scan of `avail` bytes of frames can read: walking
/// the frames of lengths `lens`, each length whose 4-byte field is there,
/// until the bytes run out.
pub open spec fn readable_lens(lens: Seq<u64>, avail: int) -> Seq<u64>
    decreases lens.len(),
{
    if lens.len() == 0 || avail < 4 {
        Seq::empty()
    } else {
        seq![lens[0]] + readable_lens(lens.drop_first(), avail - 4 - lens[0])
    }
}

proof fn lemma_frames_bytes_take(lens: Seq<u64>, k: int)
    requires
        1 <= k <= lens.len(),
    ensures
        frames_bytes(lens.take(k)) == 4 + lens[0] + frames_bytes(lens.drop_first().take(k - 1)),
{
    let t = lens.take(k);
    assert(t[0] == lens[0]);
    assert(t.drop_first() =~= lens.drop_first().take(k - 1));
}

#[verifier::rlimit(60)]
proof fn lemma_scan_cut_from(st: ScanState, m: u64, sizes: Seq<u64>)
    requires
        valid_sizes(sizes),
        m < MAX_SCAN_FILE,
        !st.finished,
        !st.found_eof,
        !st.found_manifest,
        st.pending_chunk is None,
        st.pending_manifest is None,
        st.last_good == st.offset,
        st.chunk_idx <= st.offset,
        st.total <= st.offset,
        st.offset <= m < st.offset + frames_bytes(sealed_frame_lens(sizes).take(sizes.len() + 1int)),
    ensures
        ({
            let lens = sealed_frame_lens(sizes);
            let r = scan_run(st, m, readable_lens(lens, m - st.offset));
            &&& r.finished
            &&& r.anomalies == st.anomalies + 1
            &&& !r.found_eof
            &&& !r.found_manifest
            &&& exists|q: int|
                0 <= q <= sizes.len() && r.last_good == st.offset + frames_bytes(#[trigger] lens.take(q))
                    && r.last_good <= m < r.last_good + 4 + lens[q]
        }),
    decreases sizes.len(),
{
    let lens = sealed_frame_lens(sizes);
    let avail = m - st.offset;
    let rl = readable_lens(lens, avail);
    let l0 = lens[0];
    lemma_frames_bytes_take(lens, sizes.len() + 1int);
    assert(lens.take(0) =~= Seq::<u64>::empty());
    assert(frames_bytes(lens.take(0)) == 0);
    if sizes.len() == 0 {
        assert(l0 == TAG_SIZE);
    } else {
        assert(lens[0] == sizes[0] + TAG_SIZE);
        assert(0 < sizes[0] <= CHUNK_SIZE);
    }
    assert(TAG_SIZE <= l0 <= MAX_ENCRYPTED_CHUNK);
    if avail < 4 {
        assert(rl =~= Seq::<u64>::empty());
        assert(lens.take(0) =~= Seq::<u64>::empty());
    } else {
        assert(rl[0] == l0);
        let s1 = step_length(st, m, l0);
        if l0 > m - (st.offset + 4) {
            assert(s1.finished);
            assert(scan_run(st, m, rl) == s1);
        } else {
            assert(sizes.len() > 0) by {
                if sizes.len() == 0 {
                    lemma_frames_bytes_bound(lens.drop_first().take(0));
                    assert(lens.drop_first().take(0) =~= Seq::<u64>::empty());
                }
            }
            let n0 = sizes[0];
            let rest = sizes.drop_first();
            assert(valid_sizes(rest)) by {
                assert forall|i: int| 0 <= i < rest.len() implies 0 < #[trigger] rest[i] <= CHUNK_SIZE by {
                    assert(rest[i] == sizes[i + 1]);
                }
            }
            let rlens = sealed_frame_lens(rest);
            assert(lens.drop_first() =~= rlens);
            assert(s1.pending_chunk == Some((l0, false)));
            let s2 = step_skip(s1);
            assert(s2.offset == st.offset + 4 + l0);
            assert(rl.drop_first() =~= readable_lens(rlens, m - s2.offset));
            assert(scan_run(st, m, rl) == scan_run(s2, m, rl.drop_first()));
            lemma_scan_cut_from(s2, m, rest);
            let r = scan_run(s2, m, readable_lens(rlens, m - s2.offset));
            let q2 = choose|q: int|
                0 <= q <= rest.len() && r.last_good == s2.offset + frames_bytes(#[trigger] rlens.take(q))
                    && r.last_good <= m < r.last_good + 4 + rlens[q];
            lemma_frames_bytes_take(lens, q2 + 1);
            assert(lens[q2 + 1] == rlens[q2]);
            assert(r.last_good == st.offset + frames_bytes(lens.take(q2 + 1)));
        }
    }
}

/// An archive cut short before its EOF marker ends (the file holds the
/// header and `m` bytes in all, fewer than the header, the data frames and
/// the EOF marker take) scans with one anomaly recorded, no EOF marker and
/// no manifest found, and the last valid offset at the end of the last
/// frame that the file holds whole.
pub proof fn lemma_cut_archive_scans(sizes: Seq<u64>, m: u64)
    requires
        valid_sizes(sizes),
        m < MAX_SCAN_FILE,
        HEADER_SIZE <= m < HEADER_SIZE + frames_bytes(sealed_frame_lens(sizes).take(sizes.len() + 1int)),
    ensures
        ({
            let lens = sealed_frame_lens(sizes);
            let r = scan_run(initial_scan(), m, readable_lens(lens, m - HEADER_SIZE));
            &&& r.finished
            &&& r.anomalies == 1
            &&& !r.found_eof
            &&& !r.found_manifest
            &&& exists|q: int|
                0 <= q <= sizes.len() && r.last_good == HEADER_SIZE + frames_bytes(#[trigger] lens.take(q))
                    && r.last_good <= m < r.last_good + 4 + lens[q]
        }),
{
    lemma_frames_bytes_take(sealed_frame_lens(sizes), sizes.len() + 1int);
    assert(sealed_frame_lens(sizes).take(sizes.len() + 1int).len() == sizes.len() + 1int);
    lemma_scan_cut_from(initial_scan(), m, sizes);
}

/// A well-formed archive scans clean: for the frames that sealing writes
/// (one per chunk of one byte to one full chunk of plaintext, the EOF
/// marker, the manifest) the scan records no anomaly, finds the EOF marker
/// and the manifest, counts every chunk and all the plaintext, and ends with
/// the last valid offset at the end of the file.
pub proof fn lemma_sealed_archive_scans_clean(sizes: Seq<u64>, file_size: u64)
    requires
        valid_sizes(sizes),
        file_size == HEADER_SIZE + frames_bytes(sealed_frame_lens(sizes)),
    ensures
        scan_run(initial_scan(), file_size, sealed_frame_lens(sizes)) == (ScanState {
            offset: file_size,
            last_good: file_size,
            chunk_idx: (sizes.len() + 1) as u64,
            total: sizes_total(sizes) as u64,
            found_eof: true,
            found_manifest: true,
            finished: true,
            pending_chunk: None,
            pending_manifest: None,
            anomalies: 0,
        }),
{
    lemma_scan_sealed_from(initial_scan(), file_size, sizes);
}

} // verus!
