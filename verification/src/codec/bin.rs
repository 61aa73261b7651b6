//! The compact binary format.
//!
//! Each record is: the magic bytes `YPBN`; the record size (`u32`, the number
//! of bytes that follow it); `TX_ID` (`u64`); `TX_TYPE` (one byte: 0 deposit,
//! 1 transfer, 2 withdrawal); `FROM_USER_ID`, `TO_USER_ID`, `AMOUNT`,
//! `TIMESTAMP` (`u64` each); `STATUS` (one byte: 0 success, 1 failure,
//! 2 pending); the description length (`u32`); the description's UTF-8
//! bytes. Integers are big-endian. Records follow each other to the end of
//! the input.
use crate::codec::{Decoder, Encoder};
use crate::error::{ReaderError, ReaderErrorView, WriterError, unexpected_eof_error};
use crate::text::{chars_of, decimal, push_decimal, push_str_chars, string_from_utf8_lossy, string_of, lossy_decode};
use crate::transaction::model::{
    Transaction, TransactionView, TxStatus, TxType, lemma_tx_status_roundtrip, lemma_tx_type_roundtrip,
    txs_view,
};
use vstd::prelude::*;
use vstd::utf8::{encode_utf8, encode_utf8_decode_utf8, encode_utf8_valid_utf8};

verus! {

/// Binary transaction codec.
pub struct Bin;

/// The number of bytes of a record after its size field, description excluded.
pub const MIN_RECORD_SIZE: u32 = 46;

/// The bytes before a record's size field.
pub open spec fn magic() -> Seq<u8> {
    seq![0x59u8, 0x50u8, 0x42u8, 0x4eu8]
}

// ─────────────────────────────────────────────────────────────────────────
// Big-endian integers
// ─────────────────────────────────────────────────────────────────────────

/// The unsigned integer whose big-endian bytes are `b`.
pub open spec fn be_value(b: Seq<u8>) -> nat
    decreases b.len(),
{
    if b.len() == 0 {
        0
    } else {
        be_value(b.drop_last()) * 256 + b.last() as nat
    }
}

/// The `k` big-endian bytes of `n` (modulo `256^k`).
pub open spec fn be_bytes(n: nat, k: nat) -> Seq<u8>
    decreases k,
{
    if k == 0 {
        seq![]
    } else {
        be_bytes(n / 256, (k - 1) as nat).push((n % 256) as u8)
    }
}

/// `256^k`.
pub open spec fn be_limit(k: nat) -> nat
    decreases k,
{
    if k == 0 {
        1
    } else {
        be_limit((k - 1) as nat) * 256
    }
}

proof fn lemma_be_limits()
    ensures
        be_limit(0) == 1,
        be_limit(1) == 0x100,
        be_limit(2) == 0x10000,
        be_limit(3) == 0x1000000,
        be_limit(4) == 0x100000000,
        be_limit(5) == 0x10000000000,
        be_limit(6) == 0x1000000000000,
        be_limit(7) == 0x100000000000000,
        be_limit(8) == 0x10000000000000000,
{
    reveal_with_fuel(be_limit, 9);
}

proof fn lemma_be_value_bound(b: Seq<u8>)
    ensures
        be_value(b) < be_limit(b.len()),
    decreases b.len(),
{
    if b.len() > 0 {
        lemma_be_value_bound(b.drop_last());
    }
}

/// Reading back the `k` big-endian bytes of `n < 256^k` gives `n`.
pub proof fn lemma_be_roundtrip(n: nat, k: nat)
    requires
        n < be_limit(k),
    ensures
        be_bytes(n, k).len() == k,
        be_value(be_bytes(n, k)) == n,
    decreases k,
{
    if k > 0 {
        assert(n / 256 < be_limit((k - 1) as nat)) by (nonlinear_arith)
            requires
                n < be_limit((k - 1) as nat) * 256,
        ;
        lemma_be_roundtrip(n / 256, (k - 1) as nat);
        assert(be_bytes(n, k).drop_last() =~= be_bytes(n / 256, (k - 1) as nat));
        assert((n / 256) * 256 + n % 256 == n) by (nonlinear_arith);
    }
}

/// Reads `k <= 8` big-endian bytes at `pos`.
fn read_be(data: &[u8], pos: usize, k: usize) -> (v: u64)
    requires
        k <= 8,
        pos + k <= data@.len(),
    ensures
        v as nat == be_value(data@.subrange(pos as int, pos + k)),
{
    let mut v: u64 = 0;
    let mut i: usize = 0;
    let n = data.len();
    proof {
        lemma_be_limits();
        assert(data@.subrange(pos as int, pos as int) =~= Seq::<u8>::empty());
    }
    while i < k
        invariant
            i <= k <= 8,
            pos + k <= data@.len(),
            pos + i <= data@.len(),
            n == data@.len(),
            v as nat == be_value(data@.subrange(pos as int, pos + i)),
        decreases k - i,
    {
        let ghost pre = data@.subrange(pos as int, pos + i);
        let ghost next = data@.subrange(pos as int, pos + i + 1);
        proof {
            lemma_be_value_bound(pre);
            lemma_be_limits();
            assert(be_limit(i as nat) <= 0x100000000000000) by {
                reveal_with_fuel(be_limit, 9);
            }
            assert(next.drop_last() =~= pre);
        }
        let b = data[pos + i];
        assert(v * 256 + b <= u64::MAX) by (nonlinear_arith)
            requires
                v < 0x100000000000000,
                b < 256,
        ;
        v = v * 256 + b as u64;
        i += 1;
    }
    v
}

/// Appends the `k <= 8` big-endian bytes of `n`.
fn push_be(out: &mut Vec<u8>, n: u64, k: usize)
    requires
        k <= 8,
    ensures
        final(out)@ == old(out)@ + be_bytes(n as nat, k as nat),
    decreases k,
{
    if k > 0 {
        push_be(out, n / 256, k - 1);
        out.push((n % 256) as u8);
        assert(out@ =~= old(out)@ + be_bytes(n as nat, k as nat));
    } else {
        assert(out@ =~= old(out)@ + be_bytes(n as nat, k as nat));
    }
}

// ─────────────────────────────────────────────────────────────────────────
// Reading
// ─────────────────────────────────────────────────────────────────────────

/// What reading one record at position `p` gives.
pub enum RecordRead {
    /// Fewer than four bytes are left: the input is over.
    End,
    /// A record whose description has `desc_len` bytes.
    Record { tx: TransactionView, desc_len: nat },
    /// The record is malformed or cut short.
    Failure { err: ReaderErrorView },
}

/// The reason given for a record size below the minimum.
pub open spec fn small_size_reason(size: nat) -> Seq<char> {
    "wrong record size - "@ + decimal(size) + ", should be at least "@ + decimal(46)
}

/// The reason given for an unknown type byte.
pub open spec fn type_byte_reason(b: u8) -> Seq<char> {
    "TxType should be 0 = DEPOSIT, 1 = TRANSFER, 2 = WITHDRAWAL. Received value - "@ + decimal(
        b as nat,
    )
}

/// The reason given for an unknown status byte.
pub open spec fn status_byte_reason(b: u8) -> Seq<char> {
    "TxStatus should be 0 = SUCCESS, 1 = FAILURE, 2 = PENDING. Recieved value - "@ + decimal(
        b as nat,
    )
}

/// The reason given when the description length overflows the record size.
pub open spec fn size_overflow_reason() -> Seq<char> {
    "record size overflow"@
}

/// The reason given when the record size disagrees with the description length.
pub open spec fn size_mismatch_reason(actual: nat, size: nat) -> Seq<char> {
    "real size of the record ("@ + decimal(actual) + ") not equal to expected ("@ + decimal(size)
        + ")"@
}

/// Reading one record at position `p` of `data`: its fields are checked in
/// the order they are stored, and running out of bytes inside a record is an
/// I/O error.
#[verifier::opaque]
pub open spec fn read_record_at(data: Seq<u8>, p: int) -> RecordRead {
    let rest = data.len() - p;
    let at = |a: int, b: int| be_value(data.subrange(p + a, p + b));
    if rest < 4 {
        RecordRead::End
    } else if data.subrange(p, p + 4) != magic() {
        RecordRead::Failure { err: ReaderErrorView::InvalidMagic }
    } else if rest < 8 {
        RecordRead::Failure { err: ReaderErrorView::Io }
    } else if at(4, 8) < 46 {
        RecordRead::Failure {
            err: ReaderErrorView::InvalidBinaryFormat { reason: small_size_reason(at(4, 8)) },
        }
    } else if rest < 17 {
        RecordRead::Failure { err: ReaderErrorView::Io }
    } else if TxType::from_code(data[p + 16]) is None {
        RecordRead::Failure {
            err: ReaderErrorView::InvalidBinaryFormat { reason: type_byte_reason(data[p + 16]) },
        }
    } else if rest < 50 {
        RecordRead::Failure { err: ReaderErrorView::Io }
    } else if TxStatus::from_code(data[p + 49]) is None {
        RecordRead::Failure {
            err: ReaderErrorView::InvalidBinaryFormat { reason: status_byte_reason(data[p + 49]) },
        }
    } else if rest < 54 {
        RecordRead::Failure { err: ReaderErrorView::Io }
    } else if at(50, 54) + 46 > u32::MAX {
        RecordRead::Failure {
            err: ReaderErrorView::InvalidBinaryFormat { reason: size_overflow_reason() },
        }
    } else if at(50, 54) + 46 != at(4, 8) {
        RecordRead::Failure {
            err: ReaderErrorView::InvalidBinaryFormat {
                reason: size_mismatch_reason(at(50, 54) + 46, at(4, 8)),
            },
        }
    } else if rest < 54 + at(50, 54) {
        RecordRead::Failure { err: ReaderErrorView::Io }
    } else {
        RecordRead::Record {
            tx: TransactionView {
                tx_id: at(8, 16) as u64,
                tx_type: TxType::from_code(data[p + 16])->0,
                from_user_id: at(17, 25) as u64,
                to_user_id: at(25, 33) as u64,
                amount: at(33, 41) as u64,
                timestamp: at(41, 49) as u64,
                status: TxStatus::from_code(data[p + 49])->0,
                description: lossy_decode(data.subrange(p + 54, p + 54 + at(50, 54))),
            },
            desc_len: at(50, 54),
        }
    }
}

/// Decoding `data` from position `p`: records until fewer than four bytes are
/// left, or the first malformed record.
pub open spec fn decode_from(data: Seq<u8>, p: int) -> Result<
    Seq<TransactionView>,
    ReaderErrorView,
>
    decreases data.len() - p,
{
    if p < 0 || p > data.len() {
        Ok(seq![])
    } else {
        match read_record_at(data, p) {
            RecordRead::End => Ok(seq![]),
            RecordRead::Failure { err } => Err(err),
            RecordRead::Record { tx, desc_len } => {
                proof {
                    lemma_record_within(data, p);
                }
                match decode_from(data, p + 54 + desc_len) {
                    Ok(rest) => Ok(seq![tx] + rest),
                    Err(e) => Err(e),
                }
            },
        }
    }
}

/// A record that reads lies within the data.
pub proof fn lemma_record_within(data: Seq<u8>, p: int)
    ensures
        read_record_at(data, p) matches RecordRead::Record { desc_len, .. } ==> p + 54 + desc_len
            <= data.len(),
{
    reveal(read_record_at);
}

/// Decoding a whole binary input.
pub open spec fn bin_decode(data: Seq<u8>) -> Result<Seq<TransactionView>, ReaderErrorView> {
    decode_from(data, 0)
}

/// A read position in a byte slice.
pub struct ByteCursor<'a> {
    bytes: &'a [u8],
    pos: usize,
}

impl<'a> ByteCursor<'a> {
    #[verifier::type_invariant]
    spec fn inv(self) -> bool {
        self.pos <= self.bytes@.len()
    }

    /// The bytes being read.
    pub closed spec fn data(self) -> Seq<u8> {
        self.bytes@
    }

    /// The position of the next byte to read.
    pub closed spec fn position(self) -> int {
        self.pos as int
    }

    /// A cursor at the start of `bytes`.
    pub fn new(bytes: &'a [u8]) -> (c: Self)
        ensures
            c.data() == bytes@,
            c.position() == 0,
    {
        ByteCursor { bytes, pos: 0 }
    }

    /// The position of the next byte to read.
    pub fn pos(&self) -> (p: usize)
        ensures
            p == self.position(),
            p <= self.data().len(),
    {
        proof {
            use_type_invariant(self);
        }
        self.pos
    }
}

/// The reason text `prefix` followed by the decimal digits of `n`.
fn reason_with_number(prefix: &str, n: u64) -> (res: String)
    ensures
        res@ == prefix@ + decimal(n as nat),
{
    let mut cs: Vec<char> = Vec::new();
    push_str_chars(&mut cs, prefix);
    push_decimal(&mut cs, n);
    string_of(&cs)
}

/// Reads the record at the cursor: `None` where fewer than four bytes are
/// left. After a record the cursor stands behind it; after the end of input
/// or an error, at the end of the data.
pub fn read_record(r: &mut ByteCursor) -> (res: Result<Option<Transaction>, ReaderError>)
    ensures
        final(r).data() == old(r).data(),
        match read_record_at(old(r).data(), old(r).position()) {
            RecordRead::End => res matches Ok(None) && final(r).position() == old(r).data().len(),
            RecordRead::Record { tx, desc_len } => res matches Ok(Some(t)) && t@ == tx
                && final(r).position() == old(r).position() + 54 + desc_len,
            RecordRead::Failure { err } => res matches Err(e) && e@ == err && final(r).position()
                == old(r).data().len(),
        },
{
    proof {
        use_type_invariant(&*r);
    }
    let data = r.bytes;
    let p = r.pos;
    let n = data.len();
    let res = read_record_at_pos(data, p);
    match res {
        Ok(Some((tx, used))) => {
            r.pos = p + used;
            Ok(Some(tx))
        },
        Ok(None) => {
            r.pos = n;
            Ok(None)
        },
        Err(e) => {
            r.pos = n;
            Err(e)
        },
    }
}

/// Reads the record at position `p` of `data`, giving it with the number of bytes it takes.
fn read_record_at_pos(data: &[u8], p: usize) -> (res: Result<
    Option<(Transaction, usize)>,
    ReaderError,
>)
    requires
        p <= data@.len(),
    ensures
        match read_record_at(data@, p as int) {
            RecordRead::End => res matches Ok(None),
            RecordRead::Record { tx, desc_len } => res matches Ok(Some((t, used))) && t@ == tx
                && used == 54 + desc_len && p + used <= data@.len(),
            RecordRead::Failure { err } => res matches Err(e) && e@ == err,
        },
{
    reveal(read_record_at);
    let ghost d = data@;
    let rest = data.len() - p;
    if rest < 4 {
        return Ok(None);
    }
    let magic_ok = data[p] == 0x59u8 && data[p + 1] == 0x50u8 && data[p + 2] == 0x42u8 && data[p
        + 3] == 0x4eu8;
    proof {
        if magic_ok {
            assert(d.subrange(p as int, p + 4) =~= magic());
        } else {
            assert(d.subrange(p as int, p + 4) != magic()) by {
                if d.subrange(p as int, p + 4) == magic() {
                    assert(d.subrange(p as int, p + 4)[0] == d[p as int]);
                    assert(d.subrange(p as int, p + 4)[1] == d[p + 1]);
                    assert(d.subrange(p as int, p + 4)[2] == d[p + 2]);
                    assert(d.subrange(p as int, p + 4)[3] == d[p + 3]);
                }
            }
        }
    }
    if !magic_ok {
        return Err(ReaderError::InvalidMagic);
    }
    if rest < 8 {
        return Err(ReaderError::Io(unexpected_eof_error()));
    }
    let record_size = read_be(data, p + 4, 4);
    proof {
        lemma_be_value_bound(d.subrange(p + 4, p + 8));
        lemma_be_limits();
    }
    if record_size < 46 {
        let mut cs: Vec<char> = Vec::new();
        push_str_chars(&mut cs, "wrong record size - ");
        push_decimal(&mut cs, record_size);
        push_str_chars(&mut cs, ", should be at least ");
        push_decimal(&mut cs, 46);
        return Err(ReaderError::InvalidBinaryFormat { reason: string_of(&cs) });
    }
    if rest < 17 {
        return Err(ReaderError::Io(unexpected_eof_error()));
    }
    let tx_id = read_be(data, p + 8, 8);
    let tx_type_raw = data[p + 16];
    let tx_type = match TxType::from(tx_type_raw) {
        Some(t) => t,
        None => {
            let reason = reason_with_number(
                "TxType should be 0 = DEPOSIT, 1 = TRANSFER, 2 = WITHDRAWAL. Received value - ",
                tx_type_raw as u64,
            );
            return Err(ReaderError::InvalidBinaryFormat { reason });
        },
    };
    if rest < 50 {
        return Err(ReaderError::Io(unexpected_eof_error()));
    }
    let from_user_id = read_be(data, p + 17, 8);
    let to_user_id = read_be(data, p + 25, 8);
    let amount = read_be(data, p + 33, 8);
    let timestamp = read_be(data, p + 41, 8);
    let status_raw = data[p + 49];
    let status = match TxStatus::from(status_raw) {
        Some(s) => s,
        None => {
            let reason = reason_with_number(
                "TxStatus should be 0 = SUCCESS, 1 = FAILURE, 2 = PENDING. Recieved value - ",
                status_raw as u64,
            );
            return Err(ReaderError::InvalidBinaryFormat { reason });
        },
    };
    if rest < 54 {
        return Err(ReaderError::Io(unexpected_eof_error()));
    }
    let desc_len = read_be(data, p + 50, 4);
    proof {
        lemma_be_value_bound(d.subrange(p + 50, p + 54));
    }
    if desc_len > (u32::MAX - MIN_RECORD_SIZE) as u64 {
        let mut cs = chars_of("record size overflow");
        return Err(ReaderError::InvalidBinaryFormat { reason: string_of(&cs) });
    }
    let real_size = desc_len + 46;
    if real_size != record_size {
        let mut cs = chars_of("real size of the record (");
        push_decimal(&mut cs, real_size);
        push_str_chars(&mut cs, ") not equal to expected (");
        push_decimal(&mut cs, record_size);
        push_str_chars(&mut cs, ")");
        return Err(ReaderError::InvalidBinaryFormat { reason: string_of(&cs) });
    }
    let len = desc_len as usize;
    if rest - 54 < len {
        return Err(ReaderError::Io(unexpected_eof_error()));
    }
    let description = string_from_utf8_lossy(&data[p + 54..p + 54 + len]);
    let tx = Transaction {
        tx_id,
        tx_type,
        from_user_id,
        to_user_id,
        amount,
        timestamp,
        status,
        description,
    };
    Ok(Some((tx, 54 + len)))
}

impl Decoder for Bin {
    open spec fn decoding(&self, data: Seq<u8>) -> Result<Seq<TransactionView>, ReaderErrorView> {
        bin_decode(data)
    }

    /// Decodes all records of `data`.
    fn decode(&self, data: &[u8]) -> (res: Result<Vec<Transaction>, ReaderError>)
        ensures
            match bin_decode(data@) {
                Ok(txs) => res matches Ok(v) && txs_view(v@) == txs,
                Err(e) => res matches Err(err) && err@ == e,
            },
    {
        let mut transactions: Vec<Transaction> = Vec::new();
        let mut p: usize = 0;
        while p <= data.len()
            invariant
                p <= data@.len(),
                match decode_from(data@, p as int) {
                    Ok(rest) => bin_decode(data@) == Ok::<Seq<TransactionView>, ReaderErrorView>(
                        txs_view(transactions@) + rest,
                    ),
                    Err(e) => bin_decode(data@) == Err::<Seq<TransactionView>, ReaderErrorView>(e),
                },
            decreases data@.len() - p,
        {
            match read_record_at_pos(data, p) {
                Ok(Some((tx, used))) => {
                    let ghost old_txs = txs_view(transactions@);
                    let ghost old_p = p as int;
                    transactions.push(tx);
                    p = p + used;
                    proof {
                        assert(txs_view(transactions@) =~= old_txs + seq![tx@]);
                        match decode_from(data@, p as int) {
                            Ok(rest) => {
                                assert(decode_from(data@, old_p) == Ok::<
                                    Seq<TransactionView>,
                                    ReaderErrorView,
                                >(seq![tx@] + rest));
                                assert(old_txs + (seq![tx@] + rest) =~= (old_txs + seq![tx@])
                                    + rest);
                            },
                            Err(e) => {
                                assert(decode_from(data@, old_p) == Err::<
                                    Seq<TransactionView>,
                                    ReaderErrorView,
                                >(e));
                            },
                        }
                    }
                },
                Ok(None) => {
                    assert(txs_view(transactions@) + seq![] =~= txs_view(transactions@));
                    return Ok(transactions);
                },
                Err(e) => {
                    return Err(e);
                },
            }
        }
        Ok(transactions)
    }
}

// ─────────────────────────────────────────────────────────────────────────
// Writing
// ─────────────────────────────────────────────────────────────────────────

/// The UTF-8 bytes of a description.
pub open spec fn desc_bytes(t: TransactionView) -> Seq<u8> {
    encode_utf8(t.description)
}

/// Whether a transaction fits the binary format: its description length plus
/// the fixed part must fit the `u32` record size.
pub open spec fn fits_record(t: TransactionView) -> bool {
    desc_bytes(t).len() + 46 <= u32::MAX
}

/// The bytes of one record.
#[verifier::opaque]
pub open spec fn record_bytes(t: TransactionView) -> Seq<u8> {
    let d = desc_bytes(t);
    magic() + be_bytes(d.len() + 46, 4) + be_bytes(t.tx_id as nat, 8) + seq![t.tx_type.code()]
        + be_bytes(t.from_user_id as nat, 8) + be_bytes(t.to_user_id as nat, 8) + be_bytes(
        t.amount as nat,
        8,
    ) + be_bytes(t.timestamp as nat, 8) + seq![t.status.code()] + be_bytes(d.len(), 4) + d
}

/// The records of `txs`, one after another.
pub open spec fn records_bytes(txs: Seq<TransactionView>) -> Seq<u8>
    decreases txs.len(),
{
    if txs.len() == 0 {
        seq![]
    } else {
        record_bytes(txs[0]) + records_bytes(txs.drop_first())
    }
}

proof fn lemma_records_bytes_push(txs: Seq<TransactionView>, t: TransactionView)
    ensures
        records_bytes(txs.push(t)) == records_bytes(txs) + record_bytes(t),
    decreases txs.len(),
{
    if txs.len() == 0 {
        assert(txs.push(t).drop_first() =~= Seq::<TransactionView>::empty());
        assert(records_bytes(Seq::<TransactionView>::empty()) == Seq::<u8>::empty());
        assert(txs.push(t)[0] == t);
        assert(records_bytes(txs.push(t)) =~= records_bytes(txs) + record_bytes(t));
    } else {
        lemma_records_bytes_push(txs.drop_first(), t);
        assert(txs.push(t).drop_first() =~= txs.drop_first().push(t));
        assert(records_bytes(txs.push(t)) =~= records_bytes(txs) + record_bytes(t));
    }
}

/// The index of the first transaction that does not fit the format, if any.
pub open spec fn first_unfit(txs: Seq<TransactionView>) -> Option<int> {
    if exists|i: int| 0 <= i < txs.len() && !fits_record(#[trigger] txs[i]) {
        Some(choose|i: int| 0 <= i < txs.len() && !fits_record(#[trigger] txs[i]) && (forall|j: int|
            0 <= j < i ==> fits_record(#[trigger] txs[j])))
    } else {
        None
    }
}

/// The reason given for a description too long for the format.
pub open spec fn too_long_reason() -> Seq<char> {
    "description too long for a binary record"@
}

/// Appends the record of `tx` to `w`; a description too long for the `u32`
/// record size is refused.
pub fn write_record(w: &mut Vec<u8>, tx: &Transaction) -> (res: Result<(), WriterError>)
    ensures
        fits_record(tx@) ==> res is Ok && final(w)@ == old(w)@ + record_bytes(tx@),
        !fits_record(tx@) ==> (res matches Err(WriterError::InvalidData { reason }) && reason@
            == too_long_reason()) && final(w)@ == old(w)@,
{
    let desc = tx.description.as_str().as_bytes();
    if desc.len() > (u32::MAX - MIN_RECORD_SIZE) as usize {
        let cs = chars_of("description too long for a binary record");
        return Err(WriterError::InvalidData { reason: string_of(&cs) });
    }
    let desc_len = desc.len() as u32;
    let size = MIN_RECORD_SIZE + desc_len;
    let ghost t = tx@;
    w.push(0x59u8);
    w.push(0x50u8);
    w.push(0x42u8);
    w.push(0x4eu8);
    push_be(w, size as u64, 4);
    push_be(w, tx.tx_id, 8);
    w.push(tx.tx_type.to_byte());
    push_be(w, tx.from_user_id, 8);
    push_be(w, tx.to_user_id, 8);
    push_be(w, tx.amount, 8);
    push_be(w, tx.timestamp, 8);
    w.push(tx.status.to_byte());
    push_be(w, desc_len as u64, 4);
    w.extend_from_slice(desc);
    reveal(record_bytes);
    assert(w@ =~= old(w)@ + record_bytes(t));
    Ok(())
}

impl Encoder for Bin {
    open spec fn encoding(&self, txs: Seq<TransactionView>) -> (Seq<u8>, bool) {
        match first_unfit(txs) {
            None => (records_bytes(txs), true),
            Some(i) => (records_bytes(txs.take(i)), false),
        }
    }

    /// Appends the records of `txs` to `w`, stopping at the first transaction
    /// whose description is too long for the format.
    fn encode(&self, txs: &[Transaction], w: &mut Vec<u8>) -> (res: Result<(), WriterError>)
        ensures
            match first_unfit(txs_view(txs@)) {
                None => res is Ok && final(w)@ == old(w)@ + records_bytes(txs_view(txs@)),
                Some(i) => (res matches Err(WriterError::InvalidData { reason }) && reason@
                    == too_long_reason()) && final(w)@ == old(w)@ + records_bytes(
                    txs_view(txs@).take(i),
                ),
            },
    {
        let ghost v = txs_view(txs@);
        let mut i: usize = 0;
        while i < txs.len()
            invariant
                i <= txs@.len(),
                v == txs_view(txs@),
                forall|j: int| 0 <= j < i ==> fits_record(#[trigger] v[j]),
                w@ == old(w)@ + records_bytes(v.take(i as int)),
            decreases txs@.len() - i,
        {
            let r = write_record(w, &txs[i]);
            if r.is_err() {
                proof {
                    assert(!fits_record(v[i as int]));
                    let k = choose|k: int| 0 <= k < v.len() && !fits_record(#[trigger] v[k]) && (
                    forall|j: int| 0 <= j < k ==> fits_record(#[trigger] v[j]));
                    assert(0 <= i < v.len() && !fits_record(v[i as int]) && (forall|j: int|
                        0 <= j < i ==> fits_record(#[trigger] v[j])));
                    assert(k == i) by {
                        if k < i {
                            assert(fits_record(v[k]));
                        }
                        if k > i {
                            assert(fits_record(v[i as int]));
                        }
                    }
                }
                return r;
            }
            proof {
                assert(v.take(i + 1) =~= v.take(i as int).push(v[i as int]));
                lemma_records_bytes_push(v.take(i as int), v[i as int]);
            }
            i += 1;
        }
        assert(v.take(txs@.len() as int) =~= v);
        Ok(())
    }
}

// ─────────────────────────────────────────────────────────────────────────
// Round trip
// ─────────────────────────────────────────────────────────────────────────

/// A written record, whatever bytes stand before and after it, reads back
/// as its transaction; reading consumes exactly its `54 + n` bytes (`n` the
/// description's), so [`read_record`] leaves the cursor just behind it.
#[verifier::rlimit(50)]
pub proof fn lemma_read_written_record(pre: Seq<u8>, t: TransactionView, post: Seq<u8>)
    requires
        fits_record(t),
    ensures
        record_bytes(t).len() == 54 + desc_bytes(t).len(),
        read_record_at(pre + record_bytes(t) + post, pre.len() as int) == (RecordRead::Record {
            tx: t,
            desc_len: desc_bytes(t).len(),
        }),
{
    reveal(read_record_at);
    reveal(record_bytes);
    let d = desc_bytes(t);
    let data = pre + record_bytes(t) + post;
    let p = pre.len() as int;
    lemma_be_limits();
    lemma_be_roundtrip(d.len() + 46, 4);
    lemma_be_roundtrip(t.tx_id as nat, 8);
    lemma_be_roundtrip(t.from_user_id as nat, 8);
    lemma_be_roundtrip(t.to_user_id as nat, 8);
    lemma_be_roundtrip(t.amount as nat, 8);
    lemma_be_roundtrip(t.timestamp as nat, 8);
    lemma_be_roundtrip(d.len(), 4);
    lemma_tx_type_roundtrip(t.tx_type);
    lemma_tx_status_roundtrip(t.status);
    encode_utf8_valid_utf8(t.description);
    encode_utf8_decode_utf8(t.description);
    assert(record_bytes(t).len() == 54 + d.len());
    assert(data.subrange(p, p + 4) =~= magic());
    assert(data.subrange(p + 4, p + 8) =~= be_bytes(d.len() + 46, 4));
    assert(data.subrange(p + 8, p + 16) =~= be_bytes(t.tx_id as nat, 8));
    assert(data[p + 16] == t.tx_type.code());
    assert(data.subrange(p + 17, p + 25) =~= be_bytes(t.from_user_id as nat, 8));
    assert(data.subrange(p + 25, p + 33) =~= be_bytes(t.to_user_id as nat, 8));
    assert(data.subrange(p + 33, p + 41) =~= be_bytes(t.amount as nat, 8));
    assert(data.subrange(p + 41, p + 49) =~= be_bytes(t.timestamp as nat, 8));
    assert(data[p + 49] == t.status.code());
    assert(data.subrange(p + 50, p + 54) =~= be_bytes(d.len(), 4));
    assert(data.subrange(p + 54, p + 54 + d.len()) =~= d);
}

/// Decoding at a position where a record reads continues behind that record.
proof fn lemma_decode_step(data: Seq<u8>, p: int, tx: TransactionView, desc_len: nat)
    requires
        0 <= p <= data.len(),
        read_record_at(data, p) == (RecordRead::Record { tx, desc_len }),
    ensures
        decode_from(data, p) == match decode_from(data, p + 54 + desc_len) {
            Ok(rest) => Ok::<Seq<TransactionView>, ReaderErrorView>(seq![tx] + rest),
            Err(e) => Err(e),
        },
{
}

/// Records written one after another, behind any prefix, read back in order.
proof fn lemma_decode_records(pre: Seq<u8>, txs: Seq<TransactionView>)
    requires
        forall|i: int| 0 <= i < txs.len() ==> fits_record(#[trigger] txs[i]),
    ensures
        decode_from(pre + records_bytes(txs), pre.len() as int) == Ok::<
            Seq<TransactionView>,
            ReaderErrorView,
        >(txs),
    decreases txs.len(),
{
    if txs.len() == 0 {
        assert(pre + records_bytes(txs) =~= pre);
        reveal(read_record_at);
        assert(read_record_at(pre, pre.len() as int) == RecordRead::End);
        assert(txs =~= Seq::<TransactionView>::empty());
    } else {
        let t = txs[0];
        let rest = txs.drop_first();
        assert(fits_record(txs[0]));
        lemma_read_written_record(pre, t, records_bytes(rest));
        assert(pre + records_bytes(txs) =~= pre + record_bytes(t) + records_bytes(rest));
        assert forall|i: int| 0 <= i < rest.len() implies fits_record(#[trigger] rest[i]) by {
            assert(rest[i] == txs[i + 1]);
        }
        lemma_decode_records(pre + record_bytes(t), rest);
        assert((pre + record_bytes(t)) + records_bytes(rest) =~= pre + records_bytes(txs));
        let data = pre + records_bytes(txs);
        let next = (pre.len() + 54 + desc_bytes(t).len()) as int;
        assert((pre + record_bytes(t)).len() == next);
        assert(decode_from(data, next) == Ok::<Seq<TransactionView>, ReaderErrorView>(rest));
        lemma_decode_step(data, pre.len() as int, t, desc_bytes(t).len());
        assert(seq![t] + rest =~= txs);
    }
}

/// Decoding what the encoder writes gives back the transactions it was
/// given, whenever each description fits the format.
pub proof fn lemma_bin_roundtrip(txs: Seq<TransactionView>)
    requires
        forall|i: int| 0 <= i < txs.len() ==> fits_record(#[trigger] txs[i]),
    ensures
        first_unfit(txs) is None,
        bin_decode(records_bytes(txs)) == Ok::<Seq<TransactionView>, ReaderErrorView>(txs),
{
    lemma_decode_records(seq![], txs);
    assert(Seq::<u8>::empty() + records_bytes(txs) =~= records_bytes(txs));
}

} // verus!
