//! The errors of decoding and encoding, and their messages.
use crate::text::{decimal, push_decimal, push_str_chars, string_of};
use vstd::prelude::*;

verus! {

/// `std::io::Error`, carried opaquely by the `Io` variants.
#[verifier::external_type_specification]
#[verifier::external_body]
pub struct ExIoError(std::io::Error);

/// An error returned by decoding operations ([`crate::Csv`], [`crate::Txt`], [`crate::Bin`]).
///
/// Line numbers count the lines of the input from one; in CSV input the
/// header is line 1.
#[derive(Debug)]
pub enum ReaderError {
    /// The input could not be read: it ended inside a binary record, or a
    /// text line was not valid UTF-8.
    Io(std::io::Error),
    /// The CSV header row does not match the expected schema.
    InvalidCsvHeader {
        /// The header line, without trailing whitespace.
        header: String,
    },
    /// A whole row is invalid or cannot be parsed.
    InvalidRow {
        /// Line number where the error occurred.
        line_no: usize,
        /// Human-readable explanation of what went wrong.
        reason: String,
    },
    /// A specific field contains an invalid value.
    InvalidFieldValue {
        /// Line number where the error occurred.
        line_no: usize,
        /// Field name (e.g. `TX_TYPE`).
        field: String,
        /// The raw value from the input.
        value: String,
    },
    /// One or more required fields are missing from a record.
    MissingFields {
        /// Line number where the record starts.
        line_no: usize,
        /// Names of the missing fields, in schema order.
        fields: Vec<String>,
    },
    /// The input names a field that the schema does not have.
    UnknownField {
        /// Line number where the error occurred.
        line_no: usize,
        /// The unknown field name.
        field: String,
    },
    /// A field appears more than once in a record.
    DuplicateField {
        /// Line number where the error occurred.
        line_no: usize,
        /// The duplicated field name.
        field: String,
    },
    /// Binary input does not start with the expected magic bytes.
    InvalidMagic,
    /// Binary input is structurally invalid.
    InvalidBinaryFormat {
        /// Human-readable explanation of the violation.
        reason: String,
    },
}

/// The mathematical value of a [`ReaderError`]; an I/O error is seen only by its variant.
pub enum ReaderErrorView {
    Io,
    InvalidCsvHeader { header: Seq<char> },
    InvalidRow { line_no: usize, reason: Seq<char> },
    InvalidFieldValue { line_no: usize, field: Seq<char>, value: Seq<char> },
    MissingFields { line_no: usize, fields: Seq<Seq<char>> },
    UnknownField { line_no: usize, field: Seq<char> },
    DuplicateField { line_no: usize, field: Seq<char> },
    InvalidMagic,
    InvalidBinaryFormat { reason: Seq<char> },
}

/// The character views of a sequence of strings.
pub open spec fn strings_view(v: Seq<String>) -> Seq<Seq<char>> {
    v.map_values(|s: String| s@)
}

impl View for ReaderError {
    type V = ReaderErrorView;

    open spec fn view(&self) -> ReaderErrorView {
        match self {
            ReaderError::Io(_) => ReaderErrorView::Io,
            ReaderError::InvalidCsvHeader { header } => ReaderErrorView::InvalidCsvHeader {
                header: header@,
            },
            ReaderError::InvalidRow { line_no, reason } => ReaderErrorView::InvalidRow {
                line_no: *line_no,
                reason: reason@,
            },
            ReaderError::InvalidFieldValue { line_no, field, value } =>
                ReaderErrorView::InvalidFieldValue {
                line_no: *line_no,
                field: field@,
                value: value@,
            },
            ReaderError::MissingFields { line_no, fields } => ReaderErrorView::MissingFields {
                line_no: *line_no,
                fields: strings_view(fields@),
            },
            ReaderError::UnknownField { line_no, field } => ReaderErrorView::UnknownField {
                line_no: *line_no,
                field: field@,
            },
            ReaderError::DuplicateField { line_no, field } => ReaderErrorView::DuplicateField {
                line_no: *line_no,
                field: field@,
            },
            ReaderError::InvalidMagic => ReaderErrorView::InvalidMagic,
            ReaderError::InvalidBinaryFormat { reason } => ReaderErrorView::InvalidBinaryFormat {
                reason: reason@,
            },
        }
    }
}

/// Names joined by `", "`.
pub open spec fn comma_joined(names: Seq<Seq<char>>) -> Seq<char>
    decreases names.len(),
{
    if names.len() == 0 {
        seq![]
    } else if names.len() == 1 {
        names[0]
    } else {
        comma_joined(names.drop_last()) + seq![',', ' '] + names.last()
    }
}

/// The message of a decoding error other than an I/O error.
pub open spec fn reader_message(e: ReaderErrorView) -> Seq<char> {
    match e {
        ReaderErrorView::Io => seq![],
        ReaderErrorView::InvalidCsvHeader { header } => "Invalid CSV header: '"@ + header + "'"@,
        ReaderErrorView::InvalidRow { line_no, reason } => "Line "@ + decimal(line_no as nat)
            + " - invalid row: "@ + reason,
        ReaderErrorView::InvalidFieldValue { line_no, field, value } => "Line "@ + decimal(
            line_no as nat,
        ) + " - invalid field value: "@ + field + ", value: "@ + value,
        ReaderErrorView::MissingFields { line_no, fields } => "line "@ + decimal(line_no as nat)
            + ": missing fields: "@ + comma_joined(fields),
        ReaderErrorView::UnknownField { line_no, field } => "line "@ + decimal(line_no as nat)
            + ": unknown field: "@ + field,
        ReaderErrorView::DuplicateField { line_no, field } => "line "@ + decimal(line_no as nat)
            + ": duplicate field: "@ + field,
        ReaderErrorView::InvalidMagic => "Invalid Magic"@,
        ReaderErrorView::InvalidBinaryFormat { reason } => "Invalid binary format: "@ + reason,
    }
}

/// Appends `names` joined by `", "`.
fn push_joined(out: &mut Vec<char>, names: &Vec<String>)
    ensures
        final(out)@ == old(out)@ + comma_joined(strings_view(names@)),
{
    let ghost fs = strings_view(names@);
    let mut k: usize = 0;
    assert(fs.take(0) =~= Seq::<Seq<char>>::empty());
    while k < names.len()
        invariant
            k <= names@.len(),
            fs == strings_view(names@),
            out@ == old(out)@ + comma_joined(fs.take(k as int)),
        decreases names@.len() - k,
    {
        if k > 0 {
            out.push(',');
            out.push(' ');
        }
        push_str_chars(out, names[k].as_str());
        proof {
            let t = fs.take(k + 1);
            assert(t.drop_last() =~= fs.take(k as int));
            assert(t.last() == names@[k as int]@);
            if k == 0 {
                assert(t.len() == 1);
            }
            assert(out@ =~= old(out)@ + comma_joined(t));
        }
        k += 1;
    }
    assert(fs.take(names@.len() as int) =~= fs);
}

/// Appends the decimal digits of a line number.
fn push_line_no(out: &mut Vec<char>, line_no: usize)
    ensures
        final(out)@ == old(out)@ + decimal(line_no as nat),
{
    push_decimal(out, line_no as u64);
}

impl ReaderError {
    /// The error's message: that of the I/O error, or one naming the line,
    /// the field and what went wrong.
    pub fn message(&self) -> (res: String)
        ensures
            !(self@ is Io) ==> res@ == reader_message(self@),
    {
        let mut out: Vec<char> = Vec::new();
        match self {
            ReaderError::Io(e) => {
                return io_error_text(e);
            },
            ReaderError::InvalidCsvHeader { header } => {
                push_str_chars(&mut out, "Invalid CSV header: '");
                push_str_chars(&mut out, header.as_str());
                push_str_chars(&mut out, "'");
            },
            ReaderError::InvalidRow { line_no, reason } => {
                push_str_chars(&mut out, "Line ");
                push_line_no(&mut out, *line_no);
                push_str_chars(&mut out, " - invalid row: ");
                push_str_chars(&mut out, reason.as_str());
            },
            ReaderError::InvalidFieldValue { line_no, field, value } => {
                push_str_chars(&mut out, "Line ");
                push_line_no(&mut out, *line_no);
                push_str_chars(&mut out, " - invalid field value: ");
                push_str_chars(&mut out, field.as_str());
                push_str_chars(&mut out, ", value: ");
                push_str_chars(&mut out, value.as_str());
            },
            ReaderError::MissingFields { line_no, fields } => {
                push_str_chars(&mut out, "line ");
                push_line_no(&mut out, *line_no);
                push_str_chars(&mut out, ": missing fields: ");
                push_joined(&mut out, fields);
            },
            ReaderError::UnknownField { line_no, field } => {
                push_str_chars(&mut out, "line ");
                push_line_no(&mut out, *line_no);
                push_str_chars(&mut out, ": unknown field: ");
                push_str_chars(&mut out, field.as_str());
            },
            ReaderError::DuplicateField { line_no, field } => {
                push_str_chars(&mut out, "line ");
                push_line_no(&mut out, *line_no);
                push_str_chars(&mut out, ": duplicate field: ");
                push_str_chars(&mut out, field.as_str());
            },
            ReaderError::InvalidMagic => {
                push_str_chars(&mut out, "Invalid Magic");
            },
            ReaderError::InvalidBinaryFormat { reason } => {
                push_str_chars(&mut out, "Invalid binary format: ");
                push_str_chars(&mut out, reason.as_str());
            },
        }
        assert(out@ =~= reader_message(self@));
        string_of(&out)
    }
}

/// An error returned by encoding operations.
#[derive(Debug)]
pub enum WriterError {
    /// The output could not be written.
    Io(std::io::Error),
    /// The data cannot be represented in the target format.
    InvalidData {
        /// Human-readable explanation of what makes the data invalid.
        reason: String,
    },
}

impl WriterError {
    /// The error's message: that of the I/O error, or `Invalid data: ` and
    /// the reason.
    pub fn message(&self) -> (res: String)
        ensures
            self matches WriterError::InvalidData { reason } ==> res@ == "Invalid data: "@
                + reason@,
    {
        match self {
            WriterError::Io(e) => io_error_text(e),
            WriterError::InvalidData { reason } => {
                let mut out: Vec<char> = Vec::new();
                push_str_chars(&mut out, "Invalid data: ");
                push_str_chars(&mut out, reason.as_str());
                string_of(&out)
            },
        }
    }
}

/// `std::io::Error::new(ErrorKind::UnexpectedEof, ..)`, the error that
/// `read_exact` reports when the input ends before the buffer is filled.
#[verifier::external_body]
pub(crate) fn unexpected_eof_error() -> std::io::Error {
    std::io::Error::new(std::io::ErrorKind::UnexpectedEof, "failed to fill whole buffer")
}

/// `std::io::Error::new(ErrorKind::InvalidData, ..)`, the error that
/// `BufRead::read_line` reports for a line that is not valid UTF-8.
#[verifier::external_body]
pub(crate) fn invalid_utf8_error() -> std::io::Error {
    std::io::Error::new(std::io::ErrorKind::InvalidData, "stream did not contain valid UTF-8")
}

/// The `Display` text of an I/O error (`ToString::to_string`).
#[verifier::external_body]
fn io_error_text(e: &std::io::Error) -> String {
    e.to_string()
}

} // verus!
