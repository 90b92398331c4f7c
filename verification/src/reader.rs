//! Parsed LevelDB entries, the checks made on a folder before it is read,
//! and the CSV export of the entries.

use vstd::prelude::*;
use crate::format::{byte_literal, escape_bytes, format_bytes};
use crate::text::{chars_of, push_str};

verus! {

/// One key/value pair of the database, as raw bytes.
#[derive(Clone, Debug, PartialEq, Eq)]
pub struct Entry {
    pub key_bytes: Vec<u8>,
    pub value_bytes: Vec<u8>,
}

/// What the file system says about a folder that is to be read as a
/// LevelDB database.
pub struct DbPathStatus {
    /// The path as it displays.
    pub display: String,
    pub exists: bool,
    pub is_dir: bool,
    /// Whether the folder holds a file named `CURRENT`.
    pub has_current_file: bool,
    /// Whether the folder holds a file named `LOCK`.
    pub has_lock_file: bool,
    /// Whether the folder holds a file named `.LOCK`.
    pub has_dot_lock_file: bool,
}

/// Why a folder cannot be read, or nothing when it can.
pub open spec fn db_path_error(status: DbPathStatus) -> Option<Seq<char>> {
    if !status.exists {
        Some("Path does not exist: "@ + status.display@)
    } else if !status.is_dir {
        Some("Path is not a directory: "@ + status.display@)
    } else if !status.has_current_file {
        Some("Directory does not look like a LevelDB folder (missing CURRENT): "@ + status.display@)
    } else {
        None
    }
}

fn error_with_path(prefix: &str, display: &String) -> (message: String)
    ensures
        message@ == prefix@ + display@,
{
    let mut message = String::new();
    push_str(&mut message, prefix);
    push_str(&mut message, display.as_str());
    proof {
        assert(Seq::<char>::empty() + prefix@ =~= prefix@);
    }
    message
}

/// Checks that the folder exists and looks like a LevelDB database.
pub fn validate_db_path(status: &DbPathStatus) -> (result: Result<(), String>)
    ensures
        result is Ok <==> db_path_error(*status) is None,
        result matches Err(message) ==> db_path_error(*status) == Some(message@),
{
    if !status.exists {
        return Err(error_with_path("Path does not exist: ", &status.display));
    }
    if !status.is_dir {
        return Err(error_with_path("Path is not a directory: ", &status.display));
    }
    if !status.has_current_file {
        return Err(
            error_with_path(
                "Directory does not look like a LevelDB folder (missing CURRENT): ",
                &status.display,
            ),
        );
    }
    Ok(())
}

/// The lock file that a running LevelDB left in the folder, `LOCK` before
/// `.LOCK`, after the folder passed the checks of [`validate_db_path`].
pub fn persisted_lock_file_name(status: &DbPathStatus) -> (result: Result<
    Option<&'static str>,
    String,
>)
    ensures
        result is Err <==> db_path_error(*status) is Some,
        result matches Err(message) ==> db_path_error(*status) == Some(message@),
        result matches Ok(found) ==> {
            &&& status.has_lock_file ==> found is Some && found.unwrap()@ == "LOCK"@
            &&& !status.has_lock_file && status.has_dot_lock_file ==> found is Some
                && found.unwrap()@ == ".LOCK"@
            &&& !status.has_lock_file && !status.has_dot_lock_file ==> found is None
        },
{
    validate_db_path(status)?;
    if status.has_lock_file {
        Ok(Some("LOCK"))
    } else if status.has_dot_lock_file {
        Ok(Some(".LOCK"))
    } else {
        Ok(None)
    }
}

fn same_text(a: &str, b: &str) -> (r: bool)
    ensures
        r == (a@ == b@),
{
    let x = chars_of(a);
    let y = chars_of(b);
    if x.len() != y.len() {
        return false;
    }
    let mut k: usize = 0;
    while k < x.len()
        invariant
            x@ == a@,
            y@ == b@,
            x@.len() == y@.len(),
            k <= x@.len(),
            forall|m: int| 0 <= m < k ==> x@[m] == y@[m],
        decreases x@.len() - k,
    {
        if x[k] != y[k] {
            return false;
        }
        k = k + 1;
    }
    proof {
        assert(x@ =~= y@);
    }
    true
}

/// Whether a file name is one of LevelDB's lock files.
pub fn is_lock_file_name(file_name: &str) -> (r: bool)
    ensures
        r == (file_name@ == "LOCK"@ || file_name@ == ".LOCK"@),
{
    same_text(file_name, "LOCK") || same_text(file_name, ".LOCK")
}

/// Whether copying the database leaves out a folder entry: only a lock file
/// directly in the database folder, and only when asked to.
pub fn skip_when_copying(
    ignore_lock_file: bool,
    in_root_folder: bool,
    is_file: bool,
    file_name: &str,
) -> (skip: bool)
    ensures
        skip == (ignore_lock_file && in_root_folder && is_file && (file_name@ == "LOCK"@
            || file_name@ == ".LOCK"@)),
{
    ignore_lock_file && in_root_folder && is_file && is_lock_file_name(file_name)
}

// ---------------------------------------------------------------------------
// CSV export
// ---------------------------------------------------------------------------

/// The characters that make a `csv` writer with the default settings quote a
/// field: the delimiter, the quote, and the two line-break characters.
pub open spec fn csv_special(c: char) -> bool {
    c == ',' || c == '"' || c == '\r' || c == '\n'
}

/// `f` with each quote doubled.
pub open spec fn double_quotes(f: Seq<char>) -> Seq<char>
    decreases f.len(),
{
    if f.len() == 0 {
        Seq::empty()
    } else {
        double_quotes(f.drop_last()) + if f.last() == '"' {
            seq!['"', '"']
        } else {
            seq![f.last()]
        }
    }
}

/// One field as written: in quotes, with its quotes doubled, when it holds
/// a special character; else as it is.
pub open spec fn csv_field(f: Seq<char>) -> Seq<char> {
    if exists|i: int| 0 <= i < f.len() && csv_special(#[trigger] f[i]) {
        seq!['"'] + double_quotes(f) + seq!['"']
    } else {
        f
    }
}

/// The written fields, separated by commas.
pub open spec fn csv_fields(fields: Seq<Seq<char>>) -> Seq<char>
    decreases fields.len(),
{
    if fields.len() <= 1 {
        if fields.len() == 0 {
            Seq::empty()
        } else {
            csv_field(fields[0])
        }
    } else {
        csv_fields(fields.drop_last()) + seq![','] + csv_field(fields.last())
    }
}

/// The text of one record: its fields and a line feed. A record that would
/// write nothing before the line feed (no field, or one empty field) is
/// written as an empty quoted field.
pub open spec fn csv_record_text(fields: Seq<Seq<char>>) -> Seq<char> {
    if fields.len() == 0 || (fields.len() == 1 && fields[0].len() == 0) {
        seq!['"', '"', '\n']
    } else {
        csv_fields(fields) + seq!['\n']
    }
}

/// The bytes that the `csv` crate writes for one record of `fields`.
pub open spec fn csv_record(fields: Seq<Seq<char>>) -> Seq<u8> {
    vstd::utf8::encode_utf8(csv_record_text(fields))
}

/// Encodes one CSV record.
///
/// Writes `fields` with a `csv::Writer` built by `csv::WriterBuilder::new()`
/// into a `Vec<u8>` and takes the bytes back with `into_inner`. The contract
/// claims that this succeeds and that the bytes are `csv_record` of the
/// fields. That is the rule of the `csv-core` writer with the default
/// settings (`Writer::field`, `delimiter`, `terminator` and `needs_quotes`):
/// a field is quoted when it holds a comma, a quote, a carriage return or a
/// line feed, with each quote inside doubled; fields are separated by commas;
/// the record ends with a line feed, and a record that wrote no byte before
/// it gets `""` first. The special characters are ASCII, so testing the
/// characters of a field is testing its UTF-8 bytes. In the `csv`
/// source, `write_record` fails only on an I/O error of the underlying
/// writer or on a record whose field count differs from an earlier record's
/// (a fresh writer here writes one record), and `into_inner` fails only when
/// flushing fails; writing to a `Vec<u8>` never returns an I/O error.
#[verifier::external_body]
fn encode_csv_record(fields: &[String]) -> (result: Result<Vec<u8>, String>)
    ensures
        result is Ok,
        result matches Ok(bytes) ==> bytes@ == csv_record(
            fields@.map_values(|f: String| f@),
        ),
{
    let mut writer = csv::WriterBuilder::new().from_writer(Vec::new());
    if let Err(error) = writer.write_record(fields) {
        return Err(format!("{error}"));
    }
    match writer.into_inner() {
        Ok(bytes) => Ok(bytes),
        Err(error) => Err(format!("{error}")),
    }
}

/// The byte-order mark that starts an exported file.
pub open spec fn utf8_bom() -> Seq<u8> {
    seq![0xEFu8, 0xBBu8, 0xBFu8]
}

pub open spec fn csv_header() -> Seq<u8> {
    csv_record(seq!["key"@, "value"@])
}

pub open spec fn csv_row(entry: Entry) -> Seq<u8> {
    csv_record(seq![byte_literal(entry.key_bytes@), byte_literal(entry.value_bytes@)])
}

/// The rows of `entries`, in order.
pub open spec fn csv_rows(entries: Seq<Entry>) -> Seq<u8>
    decreases entries.len(),
{
    if entries.len() == 0 {
        Seq::empty()
    } else {
        csv_rows(entries.drop_last()) + csv_row(entries.last())
    }
}

proof fn lemma_csv_rows_append(a: Seq<Entry>, b: Seq<Entry>)
    ensures
        csv_rows(a + b) == csv_rows(a) + csv_rows(b),
    decreases b.len(),
{
    if b.len() == 0 {
        assert(a + b =~= a);
        assert(csv_rows(a) + csv_rows(b) =~= csv_rows(a));
    } else {
        assert((a + b).drop_last() =~= a + b.drop_last());
        assert((a + b).last() == b.last());
        lemma_csv_rows_append(a, b.drop_last());
        assert(csv_rows(a + b) =~= csv_rows(a) + csv_rows(b));
    }
}

/// The exported rows are one record per entry, in order, whatever the
/// entry holds: the rows of two lists of entries are the rows of the first
/// followed by those of the second, the rows of one entry are its record,
/// and that record is its key and value in their byte views, each in CSV
/// quoting, separated by a comma and ended by a line feed.
pub proof fn law_csv_rows_one_record_per_entry(a: Seq<Entry>, b: Seq<Entry>, e: Entry)
    ensures
        csv_rows(a + b) == csv_rows(a) + csv_rows(b),
        csv_rows(seq![e]) == csv_row(e),
        csv_row(e) == vstd::utf8::encode_utf8(
            csv_field(byte_literal(e.key_bytes@)) + seq![','] + csv_field(byte_literal(e.value_bytes@))
                + seq!['\n'],
        ),
{
    lemma_csv_rows_append(a, b);
    let one = seq![e];
    assert(one.drop_last() =~= Seq::<Entry>::empty());
    assert(one.last() == e);
    assert(csv_rows(Seq::<Entry>::empty()) == Seq::<u8>::empty());
    assert(csv_rows(one) == csv_rows(one.drop_last()) + csv_row(one.last()));
    assert(csv_rows(one) =~= csv_row(e));
    let key = byte_literal(e.key_bytes@);
    let value = byte_literal(e.value_bytes@);
    let fields = seq![key, value];
    assert(key.len() == 3 + escape_bytes(e.key_bytes@).len());
    assert(fields.len() == 2 && fields[0] == key && fields[1] == value);
    assert(fields.drop_last() =~= seq![key]);
    assert(csv_fields(seq![key]) == csv_field(key));
    assert(csv_fields(fields) == csv_field(key) + seq![','] + csv_field(value));
    assert(csv_record_text(fields) == csv_fields(fields) + seq!['\n']);
}

/// The exported file: a byte-order mark, the header `key,value`, and one row
/// per entry with the key and the value in their byte view.
pub open spec fn csv_document(entries: Seq<Entry>) -> Seq<u8> {
    utf8_bom() + csv_header() + csv_rows(entries)
}

fn with_prefix(prefix: &str, error: String) -> (message: String)
    ensures
        message@ == prefix@ + error@,
{
    let mut message = String::new();
    push_str(&mut message, prefix);
    push_str(&mut message, error.as_str());
    proof {
        assert(Seq::<char>::empty() + prefix@ =~= prefix@);
    }
    message
}

/// The contents of the CSV file that the entries export to: always
/// produced, since encoding into memory cannot fail.
pub fn export_csv_bytes(entries: &[Entry]) -> (result: Result<Vec<u8>, String>)
    ensures
        result is Ok,
        result matches Ok(bytes) ==> bytes@ == csv_document(entries@),
{
    let mut bytes: Vec<u8> = vec![0xEFu8, 0xBBu8, 0xBFu8];
    let header = vec!["key".to_owned(), "value".to_owned()];
    proof {
        assert(header@.map_values(|f: String| f@) =~= seq!["key"@, "value"@]);
    }
    let mut encoded = match encode_csv_record(header.as_slice()) {
        Ok(encoded) => encoded,
        Err(error) => return Err(with_prefix("Failed to write CSV header: ", error)),
    };
    bytes.append(&mut encoded);
    let n = entries.len();
    let mut i: usize = 0;
    proof {
        assert(entries@.take(0) =~= Seq::<Entry>::empty());
    }
    while i < n
        invariant
            n == entries@.len(),
            i <= n,
            bytes@ == utf8_bom() + csv_header() + csv_rows(entries@.take(i as int)),
        decreases n - i,
    {
        let entry = &entries[i];
        let fields = vec![format_bytes(entry.key_bytes.as_slice()), format_bytes(entry.value_bytes.as_slice())];
        proof {
            assert(fields@.map_values(|f: String| f@) =~= seq![
                byte_literal(entry.key_bytes@),
                byte_literal(entry.value_bytes@),
            ]);
            assert(entries@.take(i + 1).drop_last() =~= entries@.take(i as int));
            assert(entries@.take(i + 1).last() == entries@[i as int]);
        }
        let mut row = match encode_csv_record(fields.as_slice()) {
            Ok(row) => row,
            Err(error) => return Err(with_prefix("Failed to write CSV row: ", error)),
        };
        let ghost before = bytes@;
        bytes.append(&mut row);
        proof {
            assert(bytes@ =~= utf8_bom() + csv_header() + csv_rows(entries@.take(i + 1)));
        }
        i = i + 1;
    }
    proof {
        assert(entries@.take(n as int) =~= entries@);
    }
    Ok(bytes)
}


/// The file name that the export dialog proposes for a database folder:
/// the folder's name followed by `.csv`.
pub fn export_file_name(folder_name: &str) -> (name: String)
    ensures
        name@ == folder_name@ + ".csv"@,
{
    let mut name = String::new();
    push_str(&mut name, folder_name);
    push_str(&mut name, ".csv");
    proof {
        assert(Seq::<char>::empty() + folder_name@ =~= folder_name@);
    }
    name
}

} // verus!
