//! Turning the text fields of an input row into a transaction message.
use vstd::prelude::*;
use crate::domain::amount::{fits_i64, parsed_amount, Amount};
use crate::domain::transaction::{transaction_type_named, TransactionType};
use crate::message::InputMessage;
use crate::text::{parse_integer, parsed_integer, text_chars};

verus! {

/// The text fields of one input row (`type,client,tx,amount`), as read.
pub struct RawInputMessage {
    /// The transaction type, e.g. `deposit`.
    pub kind: String,
    /// The client ID.
    pub client: String,
    /// The transaction ID.
    pub tx: String,
    /// The amount; may be empty.
    pub amount: String,
}

/// Why a row is not a transaction.
#[derive(Debug, Clone, Copy, PartialEq, Eq, Structural)]
pub enum RecordError {
    /// The type is not one of the five known names.
    InvalidTransactionType,
    /// The client field is not a `u16`.
    InvalidClientId,
    /// The transaction field is not a `u32`.
    InvalidTransactionId,
    /// The amount field is neither empty nor an amount.
    InvalidAmount,
}

/// What a row's fields denote: its type, client, transaction ID and scaled
/// amount, or the first field (in that order) that does not read. An empty
/// amount is zero.
pub open spec fn decoded_fields(
    kind: Seq<char>,
    client: Seq<char>,
    tx: Seq<char>,
    amount: Seq<char>,
) -> Result<(TransactionType, u16, u32, int), RecordError> {
    match transaction_type_named(kind) {
        None => Err(RecordError::InvalidTransactionType),
        Some(t) => match parsed_integer(client, false, 0, u16::MAX as int) {
            None => Err(RecordError::InvalidClientId),
            Some(c) => match parsed_integer(tx, false, 0, u32::MAX as int) {
                None => Err(RecordError::InvalidTransactionId),
                Some(x) => {
                    let a = if amount.len() == 0 {
                        Some(0int)
                    } else {
                        parsed_amount(amount)
                    };
                    match a {
                        None => Err(RecordError::InvalidAmount),
                        Some(v) => Ok((t, c as u16, x as u32, v)),
                    }
                },
            },
        },
    }
}

/// Assigns chrono order to rows as they are decoded, and records the end of
/// the input.
pub struct CsvRecordDecoder {
    /// Position of the next message in chrono order.
    chrono_order: u64,
    /// Whether the end of the input was reached.
    done: bool,
}

impl CsvRecordDecoder {
    /// The chrono order of the next message, which is also the number of rows
    /// decoded so far.
    pub closed spec fn next_order(&self) -> u64 {
        self.chrono_order
    }

    /// Whether the end of the input was reached.
    pub closed spec fn finished(&self) -> bool {
        self.done
    }

    /// A decoder at the start of the input.
    pub fn new() -> (r: Self)
        ensures
            r.next_order() == 0,
            !r.finished(),
    {
        CsvRecordDecoder { chrono_order: 0, done: false }
    }

    /// The number of rows decoded so far.
    pub fn rows_decoded(&self) -> (r: u64)
        ensures
            r == self.next_order(),
    {
        self.chrono_order
    }

    /// Whether the end of the input was reached.
    pub fn is_done(&self) -> (r: bool)
        ensures
            r == self.finished(),
    {
        self.done
    }

    /// Records the end of the input and returns the number of rows decoded.
    pub fn finish(&mut self) -> (rows: u64)
        ensures
            final(self).finished(),
            final(self).next_order() == old(self).next_order(),
            rows == old(self).next_order(),
    {
        self.done = true;
        self.chrono_order
    }

    /// One step of reading: `row` is the next row of the input, or `None` at
    /// its end. Once the end has been reached every step gives `Ok(None)` and
    /// changes nothing, whatever it is handed; the end itself gives `Ok(None)`
    /// and is recorded; a row is decoded as by `decode`.
    pub fn advance(&mut self, row: Option<&RawInputMessage>) -> (r: Result<
        Option<InputMessage>,
        RecordError,
    >)
        requires
            !old(self).finished() ==> (row is Some ==> old(self).next_order() < u64::MAX),
        ensures
            r == Ok::<Option<InputMessage>, RecordError>(None) ==> final(self).finished(),
            old(self).finished() ==> r == Ok::<Option<InputMessage>, RecordError>(None)
                && final(self).finished() && final(self).next_order() == old(self).next_order(),
            !old(self).finished() ==> match row {
                None => {
                    &&& r == Ok::<Option<InputMessage>, RecordError>(None)
                    &&& final(self).finished()
                    &&& final(self).next_order() == old(self).next_order()
                },
                Some(raw) => {
                    &&& !final(self).finished()
                    &&& match r {
                        Ok(Some(m)) => {
                            &&& decoded_fields(raw.kind@, raw.client@, raw.tx@, raw.amount@)
                                == Ok::<(TransactionType, u16, u32, int), RecordError>(
                                (m.transaction_type, m.client_id, m.transaction_id, m.amount@),
                            )
                            &&& m.chrono_order == old(self).next_order()
                            &&& fits_i64(m.amount@)
                            &&& final(self).next_order() == old(self).next_order() + 1
                        },
                        Ok(None) => false,
                        Err(e) => {
                            &&& decoded_fields(raw.kind@, raw.client@, raw.tx@, raw.amount@)
                                == Err::<(TransactionType, u16, u32, int), RecordError>(e)
                            &&& final(self).next_order() == old(self).next_order()
                        },
                    }
                },
            },
    {
        if self.done {
            return Ok(None);
        }
        match row {
            None => {
                self.finish();
                Ok(None)
            },
            Some(raw) => match self.decode(raw) {
                Ok(m) => Ok(Some(m)),
                Err(e) => Err(e),
            },
        }
    }

    /// Decodes one row into the next message in chrono order. The type must
    /// be one of the five names, the client a `u16` and the transaction a
    /// `u32`; an empty amount is zero. Chrono order advances only for a row
    /// that decodes.
    pub fn decode(&mut self, raw: &RawInputMessage) -> (r: Result<InputMessage, RecordError>)
        requires
            old(self).next_order() < u64::MAX,
        ensures
            final(self).finished() == old(self).finished(),
            match r {
                Ok(m) => {
                    &&& decoded_fields(raw.kind@, raw.client@, raw.tx@, raw.amount@) == Ok::<
                        (TransactionType, u16, u32, int),
                        RecordError,
                    >((m.transaction_type, m.client_id, m.transaction_id, m.amount@))
                    &&& m.chrono_order == old(self).next_order()
                    &&& fits_i64(m.amount@)
                    &&& final(self).next_order() == old(self).next_order() + 1
                },
                Err(e) => {
                    &&& decoded_fields(raw.kind@, raw.client@, raw.tx@, raw.amount@) == Err::<
                        (TransactionType, u16, u32, int),
                        RecordError,
                    >(e)
                    &&& final(self).next_order() == old(self).next_order()
                },
            },
    {
        let transaction_type = match TransactionType::from_str(raw.kind.as_str()) {
            Some(t) => t,
            None => return Err(RecordError::InvalidTransactionType),
        };
        let client_chars = text_chars(raw.client.as_str());
        let client_id: u16 = match parse_integer(&client_chars, false, 0, u16::MAX as i128) {
            Some(v) => v as u16,
            None => return Err(RecordError::InvalidClientId),
        };
        let tx_chars = text_chars(raw.tx.as_str());
        let transaction_id: u32 = match parse_integer(&tx_chars, false, 0, u32::MAX as i128) {
            Some(v) => v as u32,
            None => return Err(RecordError::InvalidTransactionId),
        };
        let amount = if raw.amount.as_str().is_empty() {
            Amount::zero()
        } else {
            match Amount::parse(raw.amount.as_str()) {
                Ok(a) => a,
                Err(_) => return Err(RecordError::InvalidAmount),
            }
        };
        let chrono_order = self.chrono_order;
        self.chrono_order = self.chrono_order + 1;
        Ok(InputMessage { chrono_order, transaction_type, client_id, transaction_id, amount })
    }
}

} // verus!
