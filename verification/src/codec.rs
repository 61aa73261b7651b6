//! The three transaction formats and the interface they share.
pub mod bin;
pub mod csv;
pub mod txt;

pub use bin::Bin;
pub use csv::Csv;
pub use txt::Txt;

use crate::error::{ReaderError, ReaderErrorView, WriterError, invalid_utf8_error};
use crate::text::{decode_line, line_chars};
use crate::transaction::model::{Transaction, TransactionView, txs_view};
use vstd::prelude::*;

verus! {

/// A transaction decoder: reads the transactions that a byte stream holds.
///
/// On success the transactions are returned in input order; malformed input
/// gives a [`ReaderError`].
pub trait Decoder {
    /// What decoding `data` gives: the transactions in input order, or the
    /// error that stops decoding.
    spec fn decoding(&self, data: Seq<u8>) -> Result<Seq<TransactionView>, ReaderErrorView>;

    /// Decodes the transactions held in `data`.
    fn decode(&self, data: &[u8]) -> (res: Result<Vec<Transaction>, ReaderError>)
        ensures
            match self.decoding(data@) {
                Ok(txs) => res matches Ok(v) && txs_view(v@) == txs,
                Err(e) => res matches Err(err) && err@ == e,
            },
    ;
}

/// A transaction encoder: writes transactions in its format.
pub trait Encoder {
    /// What encoding `txs` appends, and whether it succeeds.
    spec fn encoding(&self, txs: Seq<TransactionView>) -> (Seq<u8>, bool);

    /// Appends the encoding of `txs` to `w`; a [`WriterError`] where a
    /// transaction cannot be represented in the format.
    fn encode(&self, txs: &[Transaction], w: &mut Vec<u8>) -> (res: Result<(), WriterError>)
        ensures
            final(w)@ == old(w)@ + self.encoding(txs_view(txs@)).0,
            res is Ok <==> self.encoding(txs_view(txs@)).1,
    ;
}

/// The characters of line `i`; an I/O error where it is not valid UTF-8.
pub fn read_text_line(lines: &Vec<Vec<u8>>, i: usize) -> (res: Result<Vec<char>, ReaderError>)
    requires
        i < lines@.len(),
    ensures
        match line_chars(lines@[i as int]@) {
            Some(l) => res matches Ok(v) && v@ == l,
            None => res matches Err(e) && e@ == ReaderErrorView::Io,
        },
{
    match decode_line(lines[i].as_slice()) {
        Some(v) => Ok(v),
        None => Err(ReaderError::Io(invalid_utf8_error())),
    }
}

} // verus!
