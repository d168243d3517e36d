//! The on-disk format of the file store, as functions on bytes: the header
//! of every file (magic bytes and version), the log file (records, each a
//! big-endian 32-bit length then the encoded entry), the snapshot file
//! (header, index, term, length, data) and the names of snapshot files.
//! Reading and writing the files, and encoding entries, is left to the
//! caller; what to make of what was read is decided here.

use vstd::prelude::*;
use crate::raft::log::{LogEntry, LogIndex, Term};
use crate::runtime::text::{all_digits, digits_value};
use crate::storage::entry::{StoredLogEntry, entry_checksum};
use crate::storage::error::{StorageError, StorageResult};
use crate::storage::types::{IntegrityIssue, IntegrityIssueType, IntegrityReport, IssueSeverity};
use crate::support::{decimal, decimal_text, join_text};

verus! {

/// Version of the storage format.
pub const STORAGE_VERSION: u32 = 1;

/// The magic bytes that open every file: `RAFT`.
pub open spec fn storage_magic() -> Seq<u8> {
    seq![82u8, 65u8, 70u8, 84u8]
}

/// The big-endian bytes of a 32-bit number.
pub open spec fn be32(n: u32) -> Seq<u8> {
    seq![
        (n / 0x100_0000) as u8,
        ((n / 0x1_0000) % 0x100) as u8,
        ((n / 0x100) % 0x100) as u8,
        (n % 0x100) as u8,
    ]
}

/// The big-endian bytes of a 64-bit number.
pub open spec fn be64(n: u64) -> Seq<u8> {
    be32((n / 0x1_0000_0000) as u32) + be32((n % 0x1_0000_0000) as u32)
}

/// The number that four big-endian bytes stand for.
pub open spec fn be32_value(b: Seq<u8>) -> int {
    b[0] * 0x100_0000 + b[1] * 0x1_0000 + b[2] * 0x100 + b[3]
}

/// The number that eight big-endian bytes stand for.
pub open spec fn be64_value(b: Seq<u8>) -> int {
    be32_value(b.take(4)) * 0x1_0000_0000 + be32_value(b.skip(4))
}

/// The header of every file: the magic bytes, then the version.
pub open spec fn file_header() -> Seq<u8> {
    storage_magic() + be32(STORAGE_VERSION)
}

/// The message of a read that ran past the end of a file.
pub open spec fn early_eof() -> Seq<char> {
    "early eof"@
}

/// Whether `r` is the error of a read past the end of a file.
pub open spec fn is_early_eof(r: StorageError) -> bool {
    r is IoError && r->IoError_message@ == early_eof()
}

/// The error of a read past the end of a file.
fn early_eof_error() -> (e: StorageError)
    ensures
        is_early_eof(e),
{
    StorageError::io("early eof")
}

/// The big-endian bytes of `n`.
pub fn encode_be32(n: u32) -> (r: Vec<u8>)
    ensures
        r@ == be32(n),
{
    let mut r: Vec<u8> = Vec::new();
    r.push((n / 0x100_0000) as u8);
    r.push(((n / 0x1_0000) % 0x100) as u8);
    r.push(((n / 0x100) % 0x100) as u8);
    r.push((n % 0x100) as u8);
    assert(r@ =~= be32(n));
    r
}

/// The big-endian bytes of `n`.
pub fn encode_be64(n: u64) -> (r: Vec<u8>)
    ensures
        r@ == be64(n),
{
    let mut r = encode_be32((n / 0x1_0000_0000) as u32);
    let mut low = encode_be32((n % 0x1_0000_0000) as u32);
    r.append(&mut low);
    r
}

/// The number of the four big-endian bytes of `b` from `pos` on.
pub fn decode_be32(b: &[u8], pos: usize) -> (n: u32)
    requires
        pos + 4 <= b@.len(),
    ensures
        n == be32_value(b@.subrange(pos as int, pos + 4)),
{
    let v = (b[pos] as u32) * 0x100_0000 + (b[pos + 1] as u32) * 0x1_0000 + (b[pos + 2] as u32)
        * 0x100 + (b[pos + 3] as u32);
    v
}

/// The number of the eight big-endian bytes of `b` from `pos` on.
pub fn decode_be64(b: &[u8], pos: usize) -> (n: u64)
    requires
        pos + 8 <= b@.len(),
    ensures
        n == be64_value(b@.subrange(pos as int, pos + 8)),
{
    let _n = b.len();
    let high = decode_be32(b, pos);
    let low = decode_be32(b, pos + 4);
    proof {
        assert(b@.subrange(pos as int, pos + 8).take(4) =~= b@.subrange(pos as int, pos + 4));
        assert(b@.subrange(pos as int, pos + 8).skip(4) =~= b@.subrange(pos + 4, pos + 8));
    }
    (high as u64) * 0x1_0000_0000 + (low as u64)
}

/// The header of every file.
pub fn encode_file_header() -> (r: Vec<u8>)
    ensures
        r@ == file_header(),
{
    let mut r: Vec<u8> = Vec::new();
    r.push(82u8);
    r.push(65u8);
    r.push(70u8);
    r.push(84u8);
    let mut version = encode_be32(STORAGE_VERSION);
    r.append(&mut version);
    assert(r@ =~= file_header());
    r
}

/// What the header at the start of a file is found to be.
pub enum HeaderCheck {
    /// The file ends before the header does.
    Eof,
    /// Other magic bytes.
    BadMagic,
    /// Another version, with its number.
    BadVersion(int),
    /// The header of this format.
    Fine,
}

/// Checks the header at the start of `b`: the magic bytes first, then the
/// version, each read only if the bytes are there.
pub open spec fn header_check(b: Seq<u8>) -> HeaderCheck {
    if b.len() < 4 {
        HeaderCheck::Eof
    } else if b.take(4) != storage_magic() {
        HeaderCheck::BadMagic
    } else if b.len() < 8 {
        HeaderCheck::Eof
    } else if be32_value(b.subrange(4, 8)) != STORAGE_VERSION {
        HeaderCheck::BadVersion(be32_value(b.subrange(4, 8)))
    } else {
        HeaderCheck::Fine
    }
}

/// Whether `e` is the error of a header found to be `h`.
pub open spec fn refuses_header(e: StorageError, h: HeaderCheck) -> bool {
    match h {
        HeaderCheck::Eof => is_early_eof(e),
        HeaderCheck::BadMagic => e is InvalidFormat && e->InvalidFormat_message@
            == "Invalid magic bytes"@,
        HeaderCheck::BadVersion(v) => e is InvalidFormat && e->InvalidFormat_message@
            == "Unsupported version: "@ + decimal(v as nat),
        HeaderCheck::Fine => false,
    }
}

/// Checks the header at the start of `bytes`, and gives the position just
/// after it. Too few bytes are a read past the end of the file; other
/// magic bytes, or another version, an invalid format.
pub fn read_file_header(bytes: &[u8]) -> (r: StorageResult<usize>)
    ensures
        match header_check(bytes@) {
            HeaderCheck::Fine => r == Ok::<usize, StorageError>(8),
            h => r is Err && refuses_header(r->Err_0, h),
        },
{
    if bytes.len() < 4 {
        return Err(early_eof_error());
    }
    if !(bytes[0] == 82u8 && bytes[1] == 65u8 && bytes[2] == 70u8 && bytes[3] == 84u8) {
        proof {
            if bytes@.take(4) == storage_magic() {
                assert(bytes@.take(4)[0] == 82u8);
                assert(bytes@.take(4)[1] == 65u8);
                assert(bytes@.take(4)[2] == 70u8);
                assert(bytes@.take(4)[3] == 84u8);
            }
        }
        return Err(StorageError::invalid_format("Invalid magic bytes"));
    }
    assert(bytes@.take(4) =~= storage_magic());
    if bytes.len() < 8 {
        return Err(early_eof_error());
    }
    let version = decode_be32(bytes, 4);
    if version != STORAGE_VERSION {
        let digits = decimal_text(version as u64);
        let message = join_text("Unsupported version: ", digits.as_str());
        return Err(StorageError::invalid_format(message.as_str()));
    }
    Ok(8)
}

/// A log record: the length of the encoded entry, modulo 2^32 as it is
/// written in 32 bits, then the encoded entry.
pub open spec fn log_record(payload: Seq<u8>) -> Seq<u8> {
    be32((payload.len() % 0x1_0000_0000) as u32) + payload
}

/// The record of an encoded entry, to be appended to the log file.
pub fn frame_log_record(payload: &[u8]) -> (r: Vec<u8>)
    ensures
        r@ == log_record(payload@),
{
    let size = ((payload.len() as u64) % 0x1_0000_0000) as u32;
    let mut r = encode_be32(size);
    let mut body = vstd::slice::slice_to_vec(payload);
    r.append(&mut body);
    r
}

/// The records of the log file from `pos` on: the ranges of the encoded
/// entries of the whole records, and whether the file ends inside a record
/// (its length read, its bytes not all there). Fewer than four bytes left
/// end the file.
pub open spec fn records_from(b: Seq<u8>, pos: int) -> (Seq<(int, int)>, bool)
    decreases b.len() - pos,
{
    if pos < 0 || pos + 4 > b.len() {
        (Seq::empty(), false)
    } else {
        let size = be32_value(b.subrange(pos, pos + 4));
        if pos + 4 + size > b.len() {
            (Seq::empty(), true)
        } else {
            let rest = records_from(b, pos + 4 + size);
            (seq![(pos + 4, pos + 4 + size)] + rest.0, rest.1)
        }
    }
}

/// Ranges as plain integers.
pub open spec fn ranges(v: Seq<(usize, usize)>) -> Seq<(int, int)> {
    v.map_values(|r: (usize, usize)| (r.0 as int, r.1 as int))
}

/// Splits the log file into its records: the ranges of the encoded
/// entries, and whether it ends inside a record.
pub fn split_log_records(bytes: &[u8]) -> (r: (Vec<(usize, usize)>, bool))
    ensures
        ranges(r.0@) == records_from(bytes@, 0).0,
        r.1 == records_from(bytes@, 0).1,
{
    let n = bytes.len();
    let mut out: Vec<(usize, usize)> = Vec::new();
    let mut pos: usize = 0;
    loop
        invariant
            n == bytes@.len(),
            pos <= n,
            ranges(out@) + records_from(bytes@, pos as int).0 == records_from(bytes@, 0).0,
            records_from(bytes@, pos as int).1 == records_from(bytes@, 0).1,
        decreases n - pos,
    {
        if n - pos < 4 {
            return (out, false);
        }
        let size = decode_be32(bytes, pos);
        if (n - pos - 4) < size as usize {
            return (out, true);
        }
        let start = pos + 4;
        let end = start + size as usize;
        let ghost before = out@;
        out.push((start, end));
        proof {
            let rest = records_from(bytes@, end as int);
            assert(records_from(bytes@, pos as int).0 == seq![(start as int, end as int)] + rest.0);
            assert(ranges(out@) =~= ranges(before).push((start as int, end as int)));
            assert(ranges(out@) + rest.0 =~= ranges(before) + (seq![(start as int, end as int)]
                + rest.0));
        }
        pos = end;
    }
}

/// A record as decoded: the stored entry, or the decoder's message.
pub type DecodedRecord = Result<StoredLogEntry, String>;

/// What looking up an index in the log file finds.
pub enum LogLookup {
    /// The entry, intact.
    Found(crate::raft::log::LogEntryView),
    /// The entry, whose checksum does not match.
    Corrupted,
    /// A record before it that could not be decoded, with the message.
    Undecodable(Seq<char>),
    /// The file ends inside a record before the index is found.
    Truncated,
    /// No record holds the index.
    Absent,
}

/// Looks up `index` record after record: the first record that cannot be
/// decoded or holds the index decides.
pub open spec fn log_lookup(records: Seq<DecodedRecord>, truncated: bool, index: u64) -> LogLookup
    decreases records.len(),
{
    if records.len() == 0 {
        if truncated {
            LogLookup::Truncated
        } else {
            LogLookup::Absent
        }
    } else {
        match records[0] {
            Err(m) => LogLookup::Undecodable(m@),
            Ok(s) => if s.entry.index == index {
                if entry_checksum(s.entry@) == s.checksum {
                    LogLookup::Found(s.entry@)
                } else {
                    LogLookup::Corrupted
                }
            } else {
                log_lookup(records.skip(1), truncated, index)
            },
        }
    }
}

/// Whether `r` is what the store answers for a lookup that found `l`.
pub open spec fn answers_lookup(r: StorageResult<Option<LogEntry>>, l: LogLookup, index: u64) -> bool {
    match l {
        LogLookup::Found(e) => r is Ok && r->Ok_0 is Some && r->Ok_0->0@ == e,
        LogLookup::Corrupted => r is Err && r->Err_0 is Corruption && r->Err_0->Corruption_message@
            == "Corrupted entry at index "@ + decimal(index as nat),
        LogLookup::Undecodable(m) => r is Err && r->Err_0 is SerializationError
            && r->Err_0->SerializationError_message@ == m,
        LogLookup::Truncated => r is Err && is_early_eof(r->Err_0),
        LogLookup::Absent => r == Ok::<Option<LogEntry>, StorageError>(None),
    }
}

/// The entry at `index` among the records of the log file, read in order:
/// the first record that cannot be decoded fails the read, the first that
/// holds the index is returned if intact and refused as corrupted if not.
pub fn find_log_entry(records: &Vec<DecodedRecord>, truncated: bool, index: LogIndex) -> (r:
    StorageResult<Option<LogEntry>>)
    ensures
        answers_lookup(r, log_lookup(records@, truncated, index), index),
{
    let mut i: usize = 0;
    assert(records@.skip(0) =~= records@);
    while i < records.len()
        invariant
            i <= records@.len(),
            log_lookup(records@.skip(i as int), truncated, index) == log_lookup(
                records@,
                truncated,
                index,
            ),
        decreases records.len() - i,
    {
        proof {
            assert(records@.skip(i as int)[0] == records@[i as int]);
            assert(records@.skip(i as int).skip(1) =~= records@.skip(i + 1));
        }
        match &records[i] {
            Err(m) => {
                return Err(StorageError::serialization(m.as_str()));
            },
            Ok(s) => {
                if s.entry.index == index {
                    if s.verify_integrity() {
                        return Ok(Some(s.entry.duplicate()));
                    }
                    let digits = decimal_text(index);
                    let message = join_text("Corrupted entry at index ", digits.as_str());
                    return Err(StorageError::corruption(message.as_str()));
                }
            },
        }
        i = i + 1;
    }
    assert(records@.skip(i as int).len() == 0);
    if truncated {
        Err(early_eof_error())
    } else {
        Ok(None)
    }
}

/// What reading an index off the log file gives.
pub enum IndexRead {
    /// The index.
    Index(u64),
    /// A record that could not be decoded, with the message.
    Undecodable(Seq<char>),
    /// The file ends inside a record.
    Truncated,
}

/// Whether `r` is what the store answers for a read that gave `read`.
pub open spec fn answers_index(r: StorageResult<LogIndex>, read: IndexRead) -> bool {
    match read {
        IndexRead::Index(i) => r == Ok::<u64, StorageError>(i),
        IndexRead::Undecodable(m) => r is Err && r->Err_0 is SerializationError
            && r->Err_0->SerializationError_message@ == m,
        IndexRead::Truncated => r is Err && is_early_eof(r->Err_0),
    }
}

/// The index of the first record, 1 for an empty log.
pub open spec fn first_index_read(records: Seq<DecodedRecord>, truncated: bool) -> IndexRead {
    if records.len() == 0 {
        if truncated {
            IndexRead::Truncated
        } else {
            IndexRead::Index(1)
        }
    } else {
        match records[0] {
            Err(m) => IndexRead::Undecodable(m@),
            Ok(s) => IndexRead::Index(s.entry.index),
        }
    }
}

/// The index of the last record, reading all of them; `last` is the index
/// of the record before, 0 for none.
pub open spec fn last_index_read(records: Seq<DecodedRecord>, truncated: bool, last: u64) -> IndexRead
    decreases records.len(),
{
    if records.len() == 0 {
        if truncated {
            IndexRead::Truncated
        } else {
            IndexRead::Index(last)
        }
    } else {
        match records[0] {
            Err(m) => IndexRead::Undecodable(m@),
            Ok(s) => last_index_read(records.skip(1), truncated, s.entry.index),
        }
    }
}

/// The index of the first entry of the log file, 1 when it holds none.
pub fn first_log_index_of(records: &Vec<DecodedRecord>, truncated: bool) -> (r: StorageResult<
    LogIndex,
>)
    ensures
        answers_index(r, first_index_read(records@, truncated)),
{
    if records.len() == 0 {
        if truncated {
            return Err(early_eof_error());
        }
        return Ok(1);
    }
    match &records[0] {
        Err(m) => Err(StorageError::serialization(m.as_str())),
        Ok(s) => Ok(s.entry.index),
    }
}

/// The index of the last entry of the log file, 0 when it holds none;
/// every record is read, and the first that cannot be decoded fails it.
pub fn last_log_index_of(records: &Vec<DecodedRecord>, truncated: bool) -> (r: StorageResult<
    LogIndex,
>)
    ensures
        answers_index(r, last_index_read(records@, truncated, 0)),
{
    let mut last: u64 = 0;
    let mut i: usize = 0;
    assert(records@.skip(0) =~= records@);
    while i < records.len()
        invariant
            i <= records@.len(),
            last_index_read(records@.skip(i as int), truncated, last) == last_index_read(
                records@,
                truncated,
                0,
            ),
        decreases records.len() - i,
    {
        proof {
            assert(records@.skip(i as int)[0] == records@[i as int]);
            assert(records@.skip(i as int).skip(1) =~= records@.skip(i + 1));
        }
        match &records[i] {
            Err(m) => {
                return Err(StorageError::serialization(m.as_str()));
            },
            Ok(s) => {
                last = s.entry.index;
            },
        }
        i = i + 1;
    }
    assert(records@.skip(i as int).len() == 0);
    if truncated {
        Err(early_eof_error())
    } else {
        Ok(last)
    }
}

/// The issues of the log file: a checksum mismatch for each decoded entry
/// whose checksum does not match, in file order. Records that cannot be
/// decoded are passed over.
pub open spec fn file_issues(records: Seq<DecodedRecord>) -> Seq<crate::storage::memory::IssueView>
    decreases records.len(),
{
    if records.len() == 0 {
        Seq::empty()
    } else {
        let before = file_issues(records.drop_last());
        match records.last() {
            Ok(s) => if entry_checksum(s.entry@) != s.checksum {
                before.push(
                    (
                        IntegrityIssueType::ChecksumMismatch,
                        Some(s.entry.index),
                        IssueSeverity::Error,
                        "Checksum mismatch for entry at index "@ + decimal(s.entry.index as nat),
                    ),
                )
            } else {
                before
            },
            Err(_) => before,
        }
    }
}

/// The number of records that could be decoded.
pub open spec fn decoded_count(records: Seq<DecodedRecord>) -> nat
    decreases records.len(),
{
    if records.len() == 0 {
        0
    } else {
        decoded_count(records.drop_last()) + if records.last() is Ok {
            1nat
        } else {
            0nat
        }
    }
}

proof fn lemma_decoded_count_le(records: Seq<DecodedRecord>)
    ensures
        decoded_count(records) <= records.len(),
    decreases records.len(),
{
    if records.len() > 0 {
        lemma_decoded_count_le(records.drop_last());
    }
}

/// The integrity report of the log file, given its decoded records, or
/// `None` when the file exists but could not be opened (one critical issue).
/// The report is valid unless an issue of severity `Error` or above was
/// found; no snapshot is checked.
pub fn log_file_report(log: &Option<Vec<DecodedRecord>>, duration_ms: u64) -> (r: IntegrityReport)
    ensures
        r.verification_duration == duration_ms,
        r.snapshots_checked == 0,
        r.is_valid == crate::storage::memory::all_below_error(
            crate::storage::memory::issue_views(r.issues@),
        ),
        match *log {
            None => crate::storage::memory::issue_views(r.issues@) == seq![
                (IntegrityIssueType::Other, None::<u64>, IssueSeverity::Critical, "Cannot read log file"@),
            ] && r.entries_checked == 0,
            Some(records) => crate::storage::memory::issue_views(r.issues@) == file_issues(records@)
                && r.entries_checked == decoded_count(records@),
        },
{
    let mut issues: Vec<IntegrityIssue> = Vec::new();
    let mut checked: u64 = 0;
    match log {
        None => {
            issues.push(
                IntegrityIssue {
                    issue_type: IntegrityIssueType::Other,
                    description: "Cannot read log file".to_string(),
                    log_index: None,
                    severity: IssueSeverity::Critical,
                },
            );
            assert(crate::storage::memory::issue_views(issues@) =~= seq![
                (IntegrityIssueType::Other, None::<u64>, IssueSeverity::Critical, "Cannot read log file"@),
            ]);
        },
        Some(records) => {
            let mut i: usize = 0;
            while i < records.len()
                invariant
                    i <= records@.len(),
                    crate::storage::memory::issue_views(issues@) == file_issues(records@.take(i as int)),
                    checked == decoded_count(records@.take(i as int)),
                    checked <= i,
                decreases records.len() - i,
            {
                proof {
                    assert(records@.take(i + 1).drop_last() =~= records@.take(i as int));
                    assert(records@.take(i + 1).last() == records@[i as int]);
                    lemma_decoded_count_le(records@.take(i as int));
                }
                let ghost before = issues@;
                match &records[i] {
                    Ok(s) => {
                        checked = checked + 1;
                        if !s.verify_integrity() {
                            let digits = decimal_text(s.entry.index);
                            let description = join_text(
                                "Checksum mismatch for entry at index ",
                                digits.as_str(),
                            );
                            issues.push(
                                IntegrityIssue {
                                    issue_type: IntegrityIssueType::ChecksumMismatch,
                                    description,
                                    log_index: Some(s.entry.index),
                                    severity: IssueSeverity::Error,
                                },
                            );
                            assert(crate::storage::memory::issue_views(issues@) =~= crate::storage::memory::issue_views(before).push(
                                crate::storage::memory::issue_view(issues@.last()),
                            ));
                        }
                    },
                    Err(_) => {},
                }
                i = i + 1;
            }
            assert(records@.take(records@.len() as int) =~= records@);
        },
    }
    let mut is_valid = true;
    let mut j: usize = 0;
    while j < issues.len()
        invariant
            j <= issues@.len(),
            is_valid == forall|k: int| 0 <= k < j ==> crate::storage::types::severity_rank(
                #[trigger] issues@[k].severity,
            ) < 2,
        decreases issues.len() - j,
    {
        if !issues[j].severity.is_below(&IssueSeverity::Error) {
            is_valid = false;
        }
        j = j + 1;
    }
    proof {
        let v = crate::storage::memory::issue_views(issues@);
        if is_valid {
            assert forall|k: int| 0 <= k < v.len() implies crate::storage::types::severity_rank(
                #[trigger] v[k].2,
            ) < 2 by {
                assert(v[k].2 == issues@[k].severity);
            }
        } else {
            let k = choose|k: int|
                0 <= k < j && !(crate::storage::types::severity_rank(
                    #[trigger] issues@[k].severity,
                ) < 2);
            assert(v[k].2 == issues@[k].severity);
        }
    }
    IntegrityReport {
        is_valid,
        issues,
        entries_checked: checked,
        snapshots_checked: 0,
        verification_duration: duration_ms,
    }
}

/// The snapshot file of `data`, taken at `index` in `term`: the header,
/// the index and the term in 64 bits, the length of the data modulo 2^32
/// in 32 bits, then the data.
pub open spec fn snapshot_file(data: Seq<u8>, index: u64, term: u64) -> Seq<u8> {
    file_header() + be64(index) + be64(term) + be32((data.len() % 0x1_0000_0000) as u32) + data
}

/// The bytes of the snapshot file of `data`, taken at `index` in `term`.
pub fn encode_snapshot_file(data: &[u8], index: LogIndex, term: Term) -> (r: Vec<u8>)
    ensures
        r@ == snapshot_file(data@, index, term),
{
    let mut r = encode_file_header();
    let mut i = encode_be64(index);
    r.append(&mut i);
    let mut t = encode_be64(term);
    r.append(&mut t);
    let mut size = encode_be32(((data.len() as u64) % 0x1_0000_0000) as u32);
    r.append(&mut size);
    let mut body = vstd::slice::slice_to_vec(data);
    r.append(&mut body);
    r
}

/// Reads a snapshot file: after the header, the index, the term and the
/// length of the data, then the data; a file that ends before any of them
/// is a read past its end, and bytes after the data are not read.
pub fn decode_snapshot_file(bytes: &[u8]) -> (r: StorageResult<(Vec<u8>, LogIndex, Term)>)
    ensures
        match header_check(bytes@) {
            HeaderCheck::Fine => if bytes@.len() < 28 {
                r is Err && is_early_eof(r->Err_0)
            } else if bytes@.len() < 28 + be32_value(bytes@.subrange(24, 28)) {
                r is Err && is_early_eof(r->Err_0)
            } else {
                r is Ok && r->Ok_0.0@ == bytes@.subrange(
                    28,
                    28 + be32_value(bytes@.subrange(24, 28)),
                ) && r->Ok_0.1 == be64_value(bytes@.subrange(8, 16)) && r->Ok_0.2 == be64_value(
                    bytes@.subrange(16, 24),
                )
            },
            h => r is Err && refuses_header(r->Err_0, h),
        },
{
    let n = bytes.len();
    let start = match read_file_header(bytes) {
        Ok(p) => p,
        Err(e) => {
            return Err(e);
        },
    };
    if n < 28 {
        return Err(early_eof_error());
    }
    let index = decode_be64(bytes, start);
    let term = decode_be64(bytes, start + 8);
    let size = decode_be32(bytes, start + 16);
    if n - 28 < size as usize {
        return Err(early_eof_error());
    }
    let data = vstd::slice::slice_to_vec(vstd::slice::slice_subrange(bytes, 28, 28 + size as usize));
    Ok((data, index, term))
}

/// The four bytes of a 32-bit number give it back.
pub proof fn lemma_be32_round_trip(n: u32)
    ensures
        be32(n).len() == 4,
        be32_value(be32(n)) == n,
{
    let b = be32(n);
    assert(b[0] == n / 0x100_0000);
    assert(b[1] == (n / 0x1_0000) % 0x100);
    assert(b[2] == (n / 0x100) % 0x100);
    assert(b[3] == n % 0x100);
    assert(b[0] * 0x100_0000 + b[1] * 0x1_0000 + b[2] * 0x100 + b[3] == n) by (nonlinear_arith)
        requires
            b[0] == n / 0x100_0000,
            b[1] == (n / 0x1_0000) % 0x100,
            b[2] == (n / 0x100) % 0x100,
            b[3] == n % 0x100,
            0 <= n < 0x1_0000_0000,
    ;
}

/// The eight bytes of a 64-bit number give it back.
pub proof fn lemma_be64_round_trip(n: u64)
    ensures
        be64(n).len() == 8,
        be64_value(be64(n)) == n,
{
    let hi = (n / 0x1_0000_0000) as u32;
    let lo = (n % 0x1_0000_0000) as u32;
    lemma_be32_round_trip(hi);
    lemma_be32_round_trip(lo);
    assert(be64(n).take(4) =~= be32(hi));
    assert(be64(n).skip(4) =~= be32(lo));
    assert(hi * 0x1_0000_0000 + lo == n) by (nonlinear_arith)
        requires
            hi == n / 0x1_0000_0000,
            lo == n % 0x1_0000_0000,
            0 <= n,
    ;
}

/// A snapshot file reads back as what was written: the data, the index and
/// the term (for data shorter than 2^32 bytes, whose length the file holds
/// in 32 bits).
#[verifier::spinoff_prover]
pub proof fn law_snapshot_file_round_trip(data: Seq<u8>, index: u64, term: u64)
    requires
        data.len() < 0x1_0000_0000,
    ensures
        ({
            let b = snapshot_file(data, index, term);
            &&& header_check(b) == HeaderCheck::Fine
            &&& b.len() >= 28
            &&& be32_value(b.subrange(24, 28)) == data.len()
            &&& b.len() >= 28 + data.len()
            &&& b.subrange(28, 28 + data.len() as int) == data
            &&& be64_value(b.subrange(8, 16)) == index
            &&& be64_value(b.subrange(16, 24)) == term
        }),
{
    let size = (data.len() % 0x1_0000_0000) as u32;
    let h = file_header();
    let i8 = be64(index);
    let t8 = be64(term);
    let s4 = be32(size);
    let b = snapshot_file(data, index, term);
    lemma_be32_round_trip(STORAGE_VERSION);
    lemma_be64_round_trip(index);
    lemma_be64_round_trip(term);
    lemma_be32_round_trip(size);
    assert(h.len() == 8);
    assert(b == h + i8 + t8 + s4 + data);
    assert(b.len() == 28 + data.len());
    assert(b.take(4) =~= storage_magic());
    assert(b.subrange(4, 8) =~= be32(STORAGE_VERSION));
    assert(header_check(b) == HeaderCheck::Fine);
    assert(b.subrange(8, 16) =~= i8);
    assert(b.subrange(16, 24) =~= t8);
    assert(b.subrange(24, 28) =~= s4);
    assert(b.subrange(28, 28 + data.len() as int) =~= data);
}

/// A log file written record after record reads back as those records:
/// the ranges found by reading it hold the payloads in order, and the file
/// does not end inside a record (each payload shorter than 2^32 bytes).
pub proof fn law_log_records_round_trip(payloads: Seq<Seq<u8>>)
    requires
        forall|i: int| 0 <= i < payloads.len() ==> #[trigger] payloads[i].len() < 0x1_0000_0000,
    ensures
        ({
            let b = log_bytes(payloads);
            let (rs, truncated) = records_from(b, 0);
            &&& !truncated
            &&& rs.len() == payloads.len()
            &&& forall|i: int|
                #![trigger rs[i]]
                0 <= i < rs.len() ==> 0 <= rs[i].0 <= rs[i].1 <= b.len() && b.subrange(
                    rs[i].0,
                    rs[i].1,
                ) == payloads[i]
        }),
    decreases payloads.len(),
{
    lemma_log_records_from(payloads, Seq::empty());
    assert(Seq::<u8>::empty() + log_bytes(payloads) =~= log_bytes(payloads));
}

/// The log file of a list of payloads, one record each.
pub open spec fn log_bytes(payloads: Seq<Seq<u8>>) -> Seq<u8>
    decreases payloads.len(),
{
    if payloads.len() == 0 {
        Seq::empty()
    } else {
        log_record(payloads[0]) + log_bytes(payloads.skip(1))
    }
}

proof fn lemma_log_records_from(payloads: Seq<Seq<u8>>, prefix: Seq<u8>)
    requires
        forall|i: int| 0 <= i < payloads.len() ==> #[trigger] payloads[i].len() < 0x1_0000_0000,
    ensures
        ({
            let b = prefix + log_bytes(payloads);
            let (rs, truncated) = records_from(b, prefix.len() as int);
            &&& !truncated
            &&& rs.len() == payloads.len()
            &&& forall|i: int|
                #![trigger rs[i]]
                0 <= i < rs.len() ==> prefix.len() <= rs[i].0 <= rs[i].1 <= b.len() && b.subrange(
                    rs[i].0,
                    rs[i].1,
                ) == payloads[i]
        }),
    decreases payloads.len(),
{
    let b = prefix + log_bytes(payloads);
    let pos = prefix.len() as int;
    if payloads.len() == 0 {
        assert(b =~= prefix);
    } else {
        let p = payloads[0];
        let size = (p.len() % 0x1_0000_0000) as u32;
        lemma_be32_round_trip(size);
        let rest = payloads.skip(1);
        assert forall|i: int| 0 <= i < rest.len() implies #[trigger] rest[i].len() < 0x1_0000_0000 by {
            assert(rest[i] == payloads[i + 1]);
        }
        let prefix2 = prefix + log_record(p);
        assert(b =~= prefix2 + log_bytes(rest));
        assert(b.subrange(pos, pos + 4) =~= be32(size));
        assert(size == p.len());
        lemma_log_records_from(rest, prefix2);
        let (rs2, t2) = records_from(b, prefix2.len() as int);
        assert(prefix2.len() == pos + 4 + p.len());
        assert(b.subrange(pos + 4, pos + 4 + p.len()) =~= p);
        let (rs, t) = records_from(b, pos);
        assert(rs == seq![(pos + 4, pos + 4 + p.len())] + rs2);
        assert forall|i: int| #![trigger rs[i]] 0 <= i < rs.len() implies pos <= rs[i].0 <= rs[i].1
            <= b.len() && b.subrange(rs[i].0, rs[i].1) == payloads[i] by {
            if i > 0 {
                assert(rs[i] == rs2[i - 1]);
                assert(b.subrange(rs2[i - 1].0, rs2[i - 1].1) == rest[i - 1]);
                assert(prefix2.len() <= rs2[i - 1].0);
                assert(rest[i - 1] == payloads[i]);
            }
        }
    }
}

/// What `u64::from_str` gives for `s`: an optional `+`, then one or more
/// decimal digits whose value fits 64 bits; nothing else is accepted.
pub open spec fn parsed_u64(s: Seq<char>) -> Option<u64> {
    let d = if s.len() > 0 && s[0] == '+' {
        s.skip(1)
    } else {
        s
    };
    if d.len() > 0 && all_digits(d) && digits_value(d) <= u64::MAX {
        Some(digits_value(d) as u64)
    } else {
        None
    }
}

proof fn lemma_digits_value_grows(d: Seq<char>, k: int)
    requires
        all_digits(d),
        0 <= k <= d.len(),
    ensures
        0 <= digits_value(d.take(k)) <= digits_value(d),
    decreases d.len(),
{
    if d.len() == 0 {
        assert(d.take(k) =~= d);
    } else if k == d.len() {
        assert(d.take(k) =~= d);
        lemma_digits_value_grows(d.drop_last(), 0);
        assert(d.drop_last().take(0) =~= Seq::<char>::empty());
    } else {
        lemma_digits_value_grows(d.drop_last(), k);
        assert(d.drop_last().take(k) =~= d.take(k));
        assert('0' <= d.last() <= '9');
    }
}

/// Parses a decimal number the way `u64::from_str` does: an optional `+`,
/// then one or more decimal digits whose value fits 64 bits.
pub fn parse_u64(s: &str) -> (r: Option<u64>)
    ensures
        r == parsed_u64(s@),
{
    let n = s.unicode_len();
    let mut start: usize = 0;
    if n > 0 && s.get_char(0) == '+' {
        start = 1;
    }
    let ghost d = if s@.len() > 0 && s@[0] == '+' {
        s@.skip(1)
    } else {
        s@
    };
    assert(d =~= s@.skip(start as int));
    if start == n {
        return None;
    }
    let mut value: u64 = 0;
    let mut i: usize = start;
    assert(d.take(0) =~= Seq::<char>::empty());
    while i < n
        invariant
            n == s@.len(),
            start <= i <= n,
            d =~= s@.skip(start as int),
            d == (if s@.len() > 0 && s@[0] == '+' {
                s@.skip(1)
            } else {
                s@
            }),
            all_digits(d.take(i - start)),
            value == digits_value(d.take(i - start)),
        decreases n - i,
    {
        let c = s.get_char(i);
        let ghost k = i - start;
        assert(d[k] == c);
        if !('0' <= c && c <= '9') {
            assert(!all_digits(d));
            return None;
        }
        let digit: u64 = c as u64 - '0' as u64;
        let next: u128 = (value as u128) * 10 + (digit as u128);
        proof {
            assert(d.take(k + 1).drop_last() =~= d.take(k));
            assert(d.take(k + 1).last() == c);
            assert(all_digits(d.take(k + 1)));
        }
        if next > 0xffff_ffff_ffff_ffffu128 {
            proof {
                if all_digits(d) {
                    lemma_digits_value_grows(d, k + 1);
                }
            }
            return None;
        }
        value = next as u64;
        i = i + 1;
    }
    assert(d.take(n - start) =~= d);
    Some(value)
}

/// The index in the name of a snapshot file of the file store,
/// `snapshot_<index>.snap`, read as characters.
pub open spec fn snapshot_index_of(name: Seq<char>) -> Option<u64> {
    if name.len() >= 14 && name.take(9) == "snapshot_"@ && name.skip(name.len() - 5) == ".snap"@ {
        parsed_u64(name.subrange(9, name.len() - 5))
    } else {
        None
    }
}

/// The index in the name of a snapshot file, `snapshot_<index>.snap`.
pub fn snapshot_index_in(name: &str) -> (r: Option<LogIndex>)
    ensures
        r == snapshot_index_of(name@),
{
    let n = name.unicode_len();
    proof {
        reveal_strlit("snapshot_");
        reveal_strlit(".snap");
    }
    if n < 14 {
        return None;
    }
    let prefix_ok = name.get_char(0) == 's' && name.get_char(1) == 'n' && name.get_char(2) == 'a'
        && name.get_char(3) == 'p' && name.get_char(4) == 's' && name.get_char(5) == 'h'
        && name.get_char(6) == 'o' && name.get_char(7) == 't' && name.get_char(8) == '_';
    if !prefix_ok {
        proof {
            if name@.take(9) == "snapshot_"@ {
                assert(name@.take(9)[0] == 's');
                assert(name@.take(9)[1] == 'n');
                assert(name@.take(9)[2] == 'a');
                assert(name@.take(9)[3] == 'p');
                assert(name@.take(9)[4] == 's');
                assert(name@.take(9)[5] == 'h');
                assert(name@.take(9)[6] == 'o');
                assert(name@.take(9)[7] == 't');
                assert(name@.take(9)[8] == '_');
            }
        }
        return None;
    }
    assert(name@.take(9) =~= "snapshot_"@);
    let suffix_ok = name.get_char(n - 5) == '.' && name.get_char(n - 4) == 's' && name.get_char(
        n - 3,
    ) == 'n' && name.get_char(n - 2) == 'a' && name.get_char(n - 1) == 'p';
    if !suffix_ok {
        proof {
            let t = name@.skip(n - 5);
            if t == ".snap"@ {
                assert(t[0] == '.');
                assert(t[1] == 's');
                assert(t[2] == 'n');
                assert(t[3] == 'a');
                assert(t[4] == 'p');
            }
        }
        return None;
    }
    assert(name@.skip(n - 5) =~= ".snap"@);
    let middle = name.substring_char(9, n - 5);
    parse_u64(middle)
}

/// The latest snapshot among the file names `names`: the position and
/// index of the first name with the greatest index above 0, found by
/// reading the names in order; `(-1, 0)` when none has an index above 0.
pub open spec fn latest_snapshot_in(names: Seq<Seq<char>>) -> (int, u64)
    decreases names.len(),
{
    if names.len() == 0 {
        (-1, 0)
    } else {
        let before = latest_snapshot_in(names.drop_last());
        let k = snapshot_index_of(names.last());
        if k is Some && k->0 > before.1 {
            (names.len() - 1, k->0)
        } else {
            before
        }
    }
}

/// The texts of a list of names.
pub open spec fn name_texts(v: Seq<String>) -> Seq<Seq<char>> {
    v.map_values(|s: String| s@)
}

proof fn lemma_latest_in_range(names: Seq<Seq<char>>)
    ensures
        -1 <= latest_snapshot_in(names).0 < names.len(),
        latest_snapshot_in(names).0 == -1 <==> latest_snapshot_in(names).1 == 0,
    decreases names.len(),
{
    if names.len() > 0 {
        lemma_latest_in_range(names.drop_last());
    }
}

/// The position, among the names of the snapshot directory, of the latest
/// snapshot file: the first with the greatest index above 0.
pub fn latest_snapshot(names: &Vec<String>) -> (r: Option<(usize, LogIndex)>)
    ensures
        latest_snapshot_in(name_texts(names@)).0 == -1 ==> r is None,
        latest_snapshot_in(name_texts(names@)).0 != -1 ==> r == Some(
            (
                latest_snapshot_in(name_texts(names@)).0 as usize,
                latest_snapshot_in(name_texts(names@)).1,
            ),
        ),
{
    let ghost all = name_texts(names@);
    let mut best: Option<(usize, u64)> = None;
    let mut latest: u64 = 0;
    let mut i: usize = 0;
    while i < names.len()
        invariant
            i <= names@.len(),
            all == name_texts(names@),
            latest == latest_snapshot_in(all.take(i as int)).1,
            latest_snapshot_in(all.take(i as int)).0 == -1 ==> best is None,
            latest_snapshot_in(all.take(i as int)).0 != -1 ==> best == Some(
                (latest_snapshot_in(all.take(i as int)).0 as usize, latest),
            ),
        decreases names.len() - i,
    {
        proof {
            assert(all.take(i + 1).drop_last() =~= all.take(i as int));
            assert(all.take(i + 1).last() == names@[i as int]@);
            lemma_latest_in_range(all.take(i as int));
        }
        match snapshot_index_in(names[i].as_str()) {
            Some(k) => {
                if k > latest {
                    latest = k;
                    best = Some((i, k));
                }
            },
            None => {},
        }
        i = i + 1;
    }
    assert(all.take(names@.len() as int) =~= all);
    best
}

/// Whether the snapshot `(index, position)` comes before another in the
/// order of cleanup: by index, then by position among the names.
pub open spec fn cleanup_before(a: (u64, int), b: (u64, int)) -> bool {
    a.0 < b.0 || (a.0 == b.0 && a.1 < b.1)
}

/// Whether the name at `q` is that of a snapshot file.
pub open spec fn is_snapshot_at(names: Seq<Seq<char>>, q: int) -> bool {
    0 <= q < names.len() && snapshot_index_of(names[q]) is Some
}

/// The snapshot at `q`, as `(index, position)`.
pub open spec fn snapshot_at(names: Seq<Seq<char>>, q: int) -> (u64, int) {
    (snapshot_index_of(names[q])->0, q)
}

/// Whether the snapshot at `q` is not the last in the order of cleanup.
pub open spec fn superseded(names: Seq<Seq<char>>, q: int) -> bool {
    is_snapshot_at(names, q) && exists|q2: int|
        is_snapshot_at(names, q2) && #[trigger] cleanup_before(snapshot_at(names, q), snapshot_at(names, q2))
}

/// The snapshot files to remove so that only the latest stays, by their
/// positions among the names: every snapshot file but the last in the
/// order of index then position, in that order.
pub fn snapshots_to_remove(names: &Vec<String>) -> (r: Vec<usize>)
    ensures
        forall|a: int, b: int|
            #![trigger r@[a], r@[b]]
            0 <= a < b < r@.len() ==> cleanup_before(
                snapshot_at(name_texts(names@), r@[a] as int),
                snapshot_at(name_texts(names@), r@[b] as int),
            ),
        forall|a: int| 0 <= a < r@.len() ==> superseded(name_texts(names@), #[trigger] r@[a] as int),
        forall|q: int| #[trigger] superseded(name_texts(names@), q) ==> r@.contains(q as usize),
{
    let ghost all = name_texts(names@);
    let mut v: Vec<(u64, usize)> = Vec::new();
    let mut i: usize = 0;
    while i < names.len()
        invariant
            i <= names@.len(),
            all == name_texts(names@),
            all.len() == names@.len(),
            forall|a: int, b: int|
                #![trigger v@[a], v@[b]]
                0 <= a < b < v@.len() ==> cleanup_before(
                    (v@[a].0, v@[a].1 as int),
                    (v@[b].0, v@[b].1 as int),
                ),
            forall|a: int|
                0 <= a < v@.len() ==> #[trigger] v@[a].1 < i && is_snapshot_at(all, v@[a].1 as int)
                    && snapshot_at(all, v@[a].1 as int) == (v@[a].0, v@[a].1 as int),
            forall|q: int|
                0 <= q < i && #[trigger] is_snapshot_at(all, q) ==> v@.contains(
                    (snapshot_index_of(all[q])->0, q as usize),
                ),
        decreases names.len() - i,
    {
        assert(all[i as int] == names@[i as int]@);
        match snapshot_index_in(names[i].as_str()) {
            Some(k) => {
                let mut j: usize = 0;
                while j < v.len() && v[j].0 <= k
                    invariant
                        j <= v@.len(),
                        forall|a: int| 0 <= a < j ==> #[trigger] v@[a].0 <= k,
                    decreases v.len() - j,
                {
                    j = j + 1;
                }
                proof {
                    if j < v@.len() {
                        assert forall|a: int| j <= a < v@.len() implies #[trigger] v@[a].0 > k by {
                            if a > j {
                                assert(cleanup_before(
                                    (v@[j as int].0, v@[j as int].1 as int),
                                    (v@[a].0, v@[a].1 as int),
                                ));
                            }
                        }
                    }
                }
                let ghost old_v = v@;
                v.insert(j, (k, i));
                proof {
                    assert forall|a: int, b: int|
                        #![trigger v@[a], v@[b]]
                        0 <= a < b < v@.len() implies cleanup_before(
                            (v@[a].0, v@[a].1 as int),
                            (v@[b].0, v@[b].1 as int),
                        ) by {
                        if a < j && b < j {
                            assert(v@[a] == old_v[a] && v@[b] == old_v[b]);
                        } else if a < j && b == j {
                            assert(old_v[a].1 < i);
                        } else if a < j {
                            assert(v@[a] == old_v[a] && v@[b] == old_v[b - 1]);
                        } else if a == j {
                            assert(v@[b] == old_v[b - 1]);
                        } else {
                            assert(v@[a] == old_v[a - 1] && v@[b] == old_v[b - 1]);
                        }
                    }
                    assert forall|q: int|
                        0 <= q < i + 1 && #[trigger] is_snapshot_at(all, q) implies v@.contains(
                            (snapshot_index_of(all[q])->0, q as usize),
                        ) by {
                        if q < i {
                            let a = choose|a: int|
                                0 <= a < old_v.len() && old_v[a] == (
                                    snapshot_index_of(all[q])->0,
                                    q as usize,
                                );
                            if a < j {
                                assert(v@[a] == old_v[a]);
                            } else {
                                assert(v@[a + 1] == old_v[a]);
                            }
                        } else {
                            assert(v@[j as int] == (k, i));
                        }
                    }
                    assert forall|a: int| 0 <= a < v@.len() implies #[trigger] v@[a].1 < i + 1
                        && is_snapshot_at(all, v@[a].1 as int) && snapshot_at(all, v@[a].1 as int) == (
                        v@[a].0,
                        v@[a].1 as int,
                    ) by {
                        if a < j {
                            assert(v@[a] == old_v[a]);
                        } else if a > j {
                            assert(v@[a] == old_v[a - 1]);
                        }
                    }
                }
            },
            None => {
                proof {
                    assert forall|q: int|
                        0 <= q < i + 1 && #[trigger] is_snapshot_at(all, q) implies v@.contains(
                            (snapshot_index_of(all[q])->0, q as usize),
                        ) by {
                        if q == i {
                            assert(false);
                        }
                    }
                }
            },
        }
        i = i + 1;
    }
    let mut r: Vec<usize> = Vec::new();
    if v.len() == 0 {
        proof {
            assert forall|q: int| #[trigger] superseded(all, q) implies r@.contains(q as usize) by {
                assert(v@.contains((snapshot_index_of(all[q])->0, q as usize)));
            }
        }
        return r;
    }
    let last = v.len() - 1;
    let mut a: usize = 0;
    while a < last
        invariant
            last + 1 == v@.len(),
            a <= last,
            r@.len() == a,
            forall|c: int| 0 <= c < a ==> #[trigger] r@[c] == v@[c].1,
        decreases last - a,
    {
        r.push(v[a].1);
        a = a + 1;
    }
    proof {
        assert forall|c: int| 0 <= c < r@.len() implies superseded(all, #[trigger] r@[c] as int) by {
            assert(r@[c] == v@[c].1);
            assert(cleanup_before((v@[c].0, v@[c].1 as int), (v@[last as int].0, v@[last as int].1 as int)));
            assert(is_snapshot_at(all, v@[last as int].1 as int));
            assert(cleanup_before(
                snapshot_at(all, r@[c] as int),
                snapshot_at(all, v@[last as int].1 as int),
            ));
        }
        assert forall|c: int, d: int|
            #![trigger r@[c], r@[d]]
            0 <= c < d < r@.len() implies cleanup_before(
            snapshot_at(all, r@[c] as int),
            snapshot_at(all, r@[d] as int),
        ) by {
            assert(r@[c] == v@[c].1 && r@[d] == v@[d].1);
            assert(cleanup_before((v@[c].0, v@[c].1 as int), (v@[d].0, v@[d].1 as int)));
        }
        assert forall|q: int| #[trigger] superseded(all, q) implies r@.contains(q as usize) by {
            let q2 = choose|q2: int|
                is_snapshot_at(all, q2) && #[trigger] cleanup_before(snapshot_at(all, q), snapshot_at(all, q2));
            assert(v@.contains((snapshot_index_of(all[q])->0, q as usize)));
            assert(v@.contains((snapshot_index_of(all[q2])->0, q2 as usize)));
            let x = choose|x: int| 0 <= x < v@.len() && v@[x] == (snapshot_index_of(all[q])->0, q as usize);
            let y = choose|y: int| 0 <= y < v@.len() && v@[y] == (snapshot_index_of(all[q2])->0, q2 as usize);
            if x == last {
                if y < last {
                    assert(cleanup_before((v@[y].0, v@[y].1 as int), (v@[x].0, v@[x].1 as int)));
                }
                assert(false);
            }
            assert(r@[x] == q as usize);
        }
    }
    r
}

} // verus!
