//! # ypbank
//!
//! Encoding and decoding of bank transactions in three formats:
//!
//! - [`Csv`]: a header line, then one comma-separated line per transaction;
//! - [`Txt`]: one block of `KEY: value` lines per transaction;
//! - [`Bin`]: big-endian binary records behind a magic number.
//!
//! Every format implements [`Decoder`] and [`Encoder`]; decoding returns a
//! [`ReaderError`] on malformed input, encoding a [`WriterError`] where a
//! transaction cannot be written. Each decoder reads back what its encoder
//! writes (see the round-trip lemmas of the codec modules).
//!
//! The [`csv`] module holds a second CSV codec, read and written whole
//! through [`TransactionDecoder`] and [`TransactionEncoder`], whose
//! descriptions carry no quotes.
pub mod codec;
pub mod compare;
pub mod csv;
pub mod error;
pub mod text;
pub mod transaction;

pub use codec::{Bin, Csv, Txt};
pub use codec::{Decoder, Encoder};
pub use error::{ReaderError, WriterError};
pub use transaction::{Transaction, TxStatus, TxType};
pub use transaction::{TransactionDecoder, TransactionEncoder, read_transactions, write_transactions};
