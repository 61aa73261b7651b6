//! The transaction model, the builder that assembles records field by field,
//! and the whole-input decoding and encoding interface.
pub mod model;
pub mod schema;

pub use model::{Transaction, TransactionView, TxStatus, TxType};
pub mod builder;

pub use builder::TransactionBuilder;

use crate::error::{ReaderError, ReaderErrorView, WriterError};
use crate::transaction::model::txs_view;
use vstd::prelude::*;

verus! {

/// A format that reads all the transactions of an input at once.
pub trait TransactionDecoder {
    /// What decoding `data` gives: the transactions in input order, or the
    /// error that stops decoding.
    spec fn decoded(&self, data: Seq<u8>) -> Result<Seq<TransactionView>, ReaderErrorView>;

    /// Decodes all the transactions held in `data`.
    fn decode_all(&self, data: &[u8]) -> (res: Result<Vec<Transaction>, ReaderError>)
        ensures
            match self.decoded(data@) {
                Ok(txs) => res matches Ok(v) && txs_view(v@) == txs,
                Err(e) => res matches Err(err) && err@ == e,
            },
    ;
}

/// A format that writes a whole list of transactions at once.
pub trait TransactionEncoder {
    /// The bytes that encoding `txs` appends, or `None` where the format
    /// cannot represent them.
    spec fn encoded(&self, txs: Seq<TransactionView>) -> Option<Seq<u8>>;

    /// Appends the encoding of `txs` to `w`.
    fn encode_all(&self, txs: &Vec<Transaction>, w: &mut Vec<u8>) -> (res: Result<(), WriterError>)
        ensures
            match self.encoded(txs_view(txs@)) {
                Some(bytes) => res is Ok && final(w)@ == old(w)@ + bytes,
                None => res is Err,
            },
    ;
}

/// Reads all the transactions of `data` with `decoder`.
pub fn read_transactions<D: TransactionDecoder>(decoder: &D, data: &[u8]) -> (res: Result<
    Vec<Transaction>,
    ReaderError,
>)
    ensures
        match decoder.decoded(data@) {
            Ok(txs) => res matches Ok(v) && txs_view(v@) == txs,
            Err(e) => res matches Err(err) && err@ == e,
        },
{
    decoder.decode_all(data)
}

/// Writes `txs` to `w` with `encoder`.
pub fn write_transactions<E: TransactionEncoder>(
    encoder: &E,
    txs: &Vec<Transaction>,
    w: &mut Vec<u8>,
) -> (res: Result<(), WriterError>)
    ensures
        match encoder.encoded(txs_view(txs@)) {
            Some(bytes) => res is Ok && final(w)@ == old(w)@ + bytes,
            None => res is Err,
        },
{
    encoder.encode_all(txs, w)
}

} // verus!
