//! The transaction record and its two enumerations.
use crate::text::{chars_eq, chars_of, lemma_trim_no_ws, range_eq, trim, trim_bounds, upper_word};
use vstd::prelude::*;

verus! {

/// A single financial transaction record.
///
/// Fields and their names in the text formats:
///
/// - `TX_ID`: unique transaction identifier.
/// - `TX_TYPE`: `DEPOSIT`, `TRANSFER` or `WITHDRAWAL`.
/// - `FROM_USER_ID`: sender; `0` for system deposits.
/// - `TO_USER_ID`: receiver; `0` for system withdrawals.
/// - `AMOUNT`: in the smallest currency unit.
/// - `TIMESTAMP`: Unix time in milliseconds.
/// - `STATUS`: `SUCCESS`, `FAILURE` or `PENDING`.
/// - `DESCRIPTION`: free text; in the CSV and TXT formats it is stored with
///   its enclosing double quotes.
#[derive(Debug, Clone, PartialEq)]
pub struct Transaction {
    /// Unique transaction identifier (`TX_ID`).
    pub tx_id: u64,
    /// Transaction type (`TX_TYPE`).
    pub tx_type: TxType,
    /// Sender user identifier (`FROM_USER_ID`).
    pub from_user_id: u64,
    /// Receiver user identifier (`TO_USER_ID`).
    pub to_user_id: u64,
    /// Amount in the smallest currency unit (`AMOUNT`).
    pub amount: u64,
    /// Unix timestamp in milliseconds (`TIMESTAMP`).
    pub timestamp: u64,
    /// Execution status (`STATUS`).
    pub status: TxStatus,
    /// Human-readable description (`DESCRIPTION`).
    pub description: String,
}

/// The mathematical value of a [`Transaction`]: its description as characters.
pub struct TransactionView {
    pub tx_id: u64,
    pub tx_type: TxType,
    pub from_user_id: u64,
    pub to_user_id: u64,
    pub amount: u64,
    pub timestamp: u64,
    pub status: TxStatus,
    pub description: Seq<char>,
}

impl View for Transaction {
    type V = TransactionView;

    open spec fn view(&self) -> TransactionView {
        TransactionView {
            tx_id: self.tx_id,
            tx_type: self.tx_type,
            from_user_id: self.from_user_id,
            to_user_id: self.to_user_id,
            amount: self.amount,
            timestamp: self.timestamp,
            status: self.status,
            description: self.description@,
        }
    }
}

/// The views of a sequence of transactions.
pub open spec fn txs_view(txs: Seq<Transaction>) -> Seq<TransactionView> {
    txs.map_values(|t: Transaction| t@)
}

/// Transaction type (`TX_TYPE`).
#[derive(Debug, Clone, Copy, PartialEq, Eq, Structural)]
pub enum TxType {
    /// System deposit into an account (`DEPOSIT`).
    Deposit,
    /// Transfer between two user accounts (`TRANSFER`).
    Transfer,
    /// System withdrawal from an account (`WITHDRAWAL`).
    Withdrawal,
}

/// Transaction execution status (`STATUS`).
#[derive(Debug, Clone, Copy, PartialEq, Eq, Structural)]
pub enum TxStatus {
    /// Completed successfully (`SUCCESS`).
    Success,
    /// Failed to execute (`FAILURE`).
    Failure,
    /// Still being processed (`PENDING`).
    Pending,
}

impl TxType {
    /// The name of the type in the text formats.
    pub open spec fn name(self) -> Seq<char> {
        match self {
            TxType::Deposit => seq!['D', 'E', 'P', 'O', 'S', 'I', 'T'],
            TxType::Transfer => seq!['T', 'R', 'A', 'N', 'S', 'F', 'E', 'R'],
            TxType::Withdrawal => seq!['W', 'I', 'T', 'H', 'D', 'R', 'A', 'W', 'A', 'L'],
        }
    }

    /// The type whose name is exactly `s`.
    pub open spec fn from_name(s: Seq<char>) -> Option<TxType> {
        if s == TxType::Deposit.name() {
            Some(TxType::Deposit)
        } else if s == TxType::Transfer.name() {
            Some(TxType::Transfer)
        } else if s == TxType::Withdrawal.name() {
            Some(TxType::Withdrawal)
        } else {
            None
        }
    }

    /// The byte that stands for the type in the binary format.
    pub open spec fn code(self) -> u8 {
        match self {
            TxType::Deposit => 0,
            TxType::Transfer => 1,
            TxType::Withdrawal => 2,
        }
    }

    /// The type whose byte is `b`.
    pub open spec fn from_code(b: u8) -> Option<TxType> {
        if b == 0 {
            Some(TxType::Deposit)
        } else if b == 1 {
            Some(TxType::Transfer)
        } else if b == 2 {
            Some(TxType::Withdrawal)
        } else {
            None
        }
    }

    /// Parses a type name; surrounding whitespace is ignored, case is not.
    pub fn parse(s: &str) -> (res: Option<Self>)
        ensures
            res == TxType::from_name(trim(s@)),
    {
        let cs = chars_of(s);
        let r = TxType::parse_range(&cs, 0, cs.len());
        assert(cs@.subrange(0, cs@.len() as int) =~= s@);
        r
    }

    /// Parses a type name that must match exactly, whitespace included.
    pub fn parse_exact(s: &str) -> (res: Option<Self>)
        ensures
            res == TxType::from_name(s@),
    {
        let cs = chars_of(s);
        TxType::parse_exact_chars(&cs)
    }

    /// [`TxType::parse_exact`] on characters.
    pub fn parse_exact_chars(s: &[char]) -> (res: Option<Self>)
        ensures
            res == TxType::from_name(s@),
    {
        if chars_eq(s, &TxType::Deposit.name_chars()) {
            Some(TxType::Deposit)
        } else if chars_eq(s, &TxType::Transfer.name_chars()) {
            Some(TxType::Transfer)
        } else if chars_eq(s, &TxType::Withdrawal.name_chars()) {
            Some(TxType::Withdrawal)
        } else {
            None
        }
    }

    /// Parses the type name held in `s[lo..hi]`, ignoring surrounding whitespace.
    pub fn parse_range(s: &[char], lo: usize, hi: usize) -> (res: Option<Self>)
        requires
            lo <= hi <= s@.len(),
        ensures
            res == TxType::from_name(trim(s@.subrange(lo as int, hi as int))),
    {
        let (a, b) = trim_bounds(s, lo, hi);
        let deposit: [char; 7] = ['D', 'E', 'P', 'O', 'S', 'I', 'T'];
        let transfer: [char; 8] = ['T', 'R', 'A', 'N', 'S', 'F', 'E', 'R'];
        let withdrawal: [char; 10] = ['W', 'I', 'T', 'H', 'D', 'R', 'A', 'W', 'A', 'L'];
        assert(deposit@ == TxType::Deposit.name());
        assert(transfer@ == TxType::Transfer.name());
        assert(withdrawal@ == TxType::Withdrawal.name());
        if range_eq(s, a, b, &deposit) {
            Some(TxType::Deposit)
        } else if range_eq(s, a, b, &transfer) {
            Some(TxType::Transfer)
        } else if range_eq(s, a, b, &withdrawal) {
            Some(TxType::Withdrawal)
        } else {
            None
        }
    }

    /// The type whose byte in the binary format is `val`.
    pub fn from(val: u8) -> (res: Option<Self>)
        ensures
            res == TxType::from_code(val),
    {
        match val {
            0 => Some(TxType::Deposit),
            1 => Some(TxType::Transfer),
            2 => Some(TxType::Withdrawal),
            _ => None,
        }
    }

    /// The name of the type in the text formats.
    pub fn as_str(&self) -> (res: &'static str)
        ensures
            res@ == self.name(),
    {
        match self {
            TxType::Deposit => {
                proof {
                    reveal_strlit("DEPOSIT");
                }
                "DEPOSIT"
            },
            TxType::Transfer => {
                proof {
                    reveal_strlit("TRANSFER");
                }
                "TRANSFER"
            },
            TxType::Withdrawal => {
                proof {
                    reveal_strlit("WITHDRAWAL");
                }
                "WITHDRAWAL"
            },
        }
    }

    /// The name of the type as characters.
    pub fn name_chars(&self) -> (res: Vec<char>)
        ensures
            res@ == self.name(),
    {
        chars_of(self.as_str())
    }

    /// The byte that stands for the type in the binary format.
    pub fn to_byte(&self) -> (res: u8)
        ensures
            res == self.code(),
    {
        match self {
            TxType::Deposit => 0u8,
            TxType::Transfer => 1u8,
            TxType::Withdrawal => 2u8,
        }
    }
}

impl TxStatus {
    /// The name of the status in the text formats.
    pub open spec fn name(self) -> Seq<char> {
        match self {
            TxStatus::Success => seq!['S', 'U', 'C', 'C', 'E', 'S', 'S'],
            TxStatus::Failure => seq!['F', 'A', 'I', 'L', 'U', 'R', 'E'],
            TxStatus::Pending => seq!['P', 'E', 'N', 'D', 'I', 'N', 'G'],
        }
    }

    /// The status whose name is exactly `s`.
    pub open spec fn from_name(s: Seq<char>) -> Option<TxStatus> {
        if s == TxStatus::Success.name() {
            Some(TxStatus::Success)
        } else if s == TxStatus::Failure.name() {
            Some(TxStatus::Failure)
        } else if s == TxStatus::Pending.name() {
            Some(TxStatus::Pending)
        } else {
            None
        }
    }

    /// The byte that stands for the status in the binary format.
    pub open spec fn code(self) -> u8 {
        match self {
            TxStatus::Success => 0,
            TxStatus::Failure => 1,
            TxStatus::Pending => 2,
        }
    }

    /// The status whose byte is `b`.
    pub open spec fn from_code(b: u8) -> Option<TxStatus> {
        if b == 0 {
            Some(TxStatus::Success)
        } else if b == 1 {
            Some(TxStatus::Failure)
        } else if b == 2 {
            Some(TxStatus::Pending)
        } else {
            None
        }
    }

    /// Parses a status name; surrounding whitespace is ignored, case is not.
    pub fn parse(s: &str) -> (res: Option<Self>)
        ensures
            res == TxStatus::from_name(trim(s@)),
    {
        let cs = chars_of(s);
        let r = TxStatus::parse_range(&cs, 0, cs.len());
        assert(cs@.subrange(0, cs@.len() as int) =~= s@);
        r
    }

    /// Parses a status name that must match exactly, whitespace included.
    pub fn parse_exact(s: &str) -> (res: Option<Self>)
        ensures
            res == TxStatus::from_name(s@),
    {
        let cs = chars_of(s);
        TxStatus::parse_exact_chars(&cs)
    }

    /// [`TxStatus::parse_exact`] on characters.
    pub fn parse_exact_chars(s: &[char]) -> (res: Option<Self>)
        ensures
            res == TxStatus::from_name(s@),
    {
        if chars_eq(s, &TxStatus::Success.name_chars()) {
            Some(TxStatus::Success)
        } else if chars_eq(s, &TxStatus::Failure.name_chars()) {
            Some(TxStatus::Failure)
        } else if chars_eq(s, &TxStatus::Pending.name_chars()) {
            Some(TxStatus::Pending)
        } else {
            None
        }
    }

    /// Parses the status name held in `s[lo..hi]`, ignoring surrounding whitespace.
    pub fn parse_range(s: &[char], lo: usize, hi: usize) -> (res: Option<Self>)
        requires
            lo <= hi <= s@.len(),
        ensures
            res == TxStatus::from_name(trim(s@.subrange(lo as int, hi as int))),
    {
        let (a, b) = trim_bounds(s, lo, hi);
        let success: [char; 7] = ['S', 'U', 'C', 'C', 'E', 'S', 'S'];
        let failure: [char; 7] = ['F', 'A', 'I', 'L', 'U', 'R', 'E'];
        let pending: [char; 7] = ['P', 'E', 'N', 'D', 'I', 'N', 'G'];
        assert(success@ == TxStatus::Success.name());
        assert(failure@ == TxStatus::Failure.name());
        assert(pending@ == TxStatus::Pending.name());
        if range_eq(s, a, b, &success) {
            Some(TxStatus::Success)
        } else if range_eq(s, a, b, &failure) {
            Some(TxStatus::Failure)
        } else if range_eq(s, a, b, &pending) {
            Some(TxStatus::Pending)
        } else {
            None
        }
    }

    /// The name of the status in the text formats.
    pub fn as_str(&self) -> (res: &'static str)
        ensures
            res@ == self.name(),
    {
        match self {
            TxStatus::Success => {
                proof {
                    reveal_strlit("SUCCESS");
                }
                "SUCCESS"
            },
            TxStatus::Failure => {
                proof {
                    reveal_strlit("FAILURE");
                }
                "FAILURE"
            },
            TxStatus::Pending => {
                proof {
                    reveal_strlit("PENDING");
                }
                "PENDING"
            },
        }
    }

    /// The name of the status as characters.
    pub fn name_chars(&self) -> (res: Vec<char>)
        ensures
            res@ == self.name(),
    {
        chars_of(self.as_str())
    }

    /// The status whose byte in the binary format is `val`.
    pub fn from(val: u8) -> (res: Option<Self>)
        ensures
            res == TxStatus::from_code(val),
    {
        match val {
            0 => Some(TxStatus::Success),
            1 => Some(TxStatus::Failure),
            2 => Some(TxStatus::Pending),
            _ => None,
        }
    }

    /// The byte that stands for the status in the binary format.
    pub fn to_byte(&self) -> (res: u8)
        ensures
            res == self.code(),
    {
        match self {
            TxStatus::Success => 0u8,
            TxStatus::Failure => 1u8,
            TxStatus::Pending => 2u8,
        }
    }
}

/// A type's byte in the binary format reads back as the same type, and so
/// does its name in the text formats, with or without surrounding whitespace.
pub proof fn lemma_tx_type_roundtrip(t: TxType)
    ensures
        TxType::from_code(t.code()) == Some(t),
        TxType::from_name(t.name()) == Some(t),
        trim(t.name()) == t.name(),
        t.name().len() > 0,
        upper_word(t.name()),
{
    lemma_trim_no_ws(t.name());
}

/// A status's byte in the binary format reads back as the same status, and
/// so does its name in the text formats.
pub proof fn lemma_tx_status_roundtrip(s: TxStatus)
    ensures
        TxStatus::from_code(s.code()) == Some(s),
        TxStatus::from_name(s.name()) == Some(s),
        trim(s.name()) == s.name(),
        s.name().len() > 0,
        upper_word(s.name()),
{
    lemma_trim_no_ws(s.name());
}

} // verus!
