use nda_takehome::domain::amount::Amount;
use nda_takehome::domain::transaction::TransactionType;
use nda_takehome::infrastructure::csv_reader::{CsvRecordDecoder, RawInputMessage, RecordError};
use nda_takehome::message::InputMessage;

/// Reads CSV text as the engine's reader does (headers, fields trimmed) and
/// decodes every row in order.
fn read_csv(content: &str) -> Result<Vec<InputMessage>, String> {
    let mut rdr = csv::ReaderBuilder::new()
        .has_headers(true)
        .trim(csv::Trim::All)
        .from_reader(content.as_bytes());
    let headers = rdr.headers().map_err(|e| e.to_string())?.clone();
    let column = |name: &str| headers.iter().position(|h| h == name).unwrap();
    let (kind, client, tx, amount) = (column("type"), column("client"), column("tx"), column("amount"));
    let mut decoder = CsvRecordDecoder::new();
    let mut messages = Vec::new();
    for record in rdr.records() {
        let record = record.map_err(|e| e.to_string())?;
        let raw = RawInputMessage {
            kind: record[kind].to_string(),
            client: record[client].to_string(),
            tx: record[tx].to_string(),
            amount: record[amount].to_string(),
        };
        let msg = decoder.advance(Some(&raw)).map_err(|e| format!("{e:?}"))?;
        messages.push(msg.expect("a row decodes to a message"));
    }
    assert_eq!(decoder.advance(None), Ok(None));
    Ok(messages)
}

#[test]
fn test_empty_amount_field_is_zero() {
    let csv = "type,client,tx,amount\ndispute,1,1,\nresolve,1,1,\nchargeback,1,1,\n";
    let messages = read_csv(csv).expect("should parse without error");
    assert_eq!(messages.len(), 3);
    for msg in &messages {
        assert_eq!(msg.amount, Amount::zero());
    }
}

#[test]
fn test_dispute_empty_amount_parses_transaction_fields() {
    let csv = "type,client,tx,amount\ndispute,42,99,\n";
    let messages = read_csv(csv).expect("should parse without error");
    assert_eq!(messages.len(), 1);
    let msg = &messages[0];
    assert_eq!(msg.transaction_type, TransactionType::Dispute);
    assert_eq!(msg.client_id, 42);
    assert_eq!(msg.transaction_id, 99);
    assert_eq!(msg.amount, Amount::zero());
}

#[test]
fn test_resolve_empty_amount_parses_transaction_fields() {
    let csv = "type,client,tx,amount\nresolve,7,3,\n";
    let messages = read_csv(csv).expect("should parse without error");
    assert_eq!(messages.len(), 1);
    let msg = &messages[0];
    assert_eq!(msg.transaction_type, TransactionType::Resolve);
    assert_eq!(msg.client_id, 7);
    assert_eq!(msg.transaction_id, 3);
    assert_eq!(msg.amount, Amount::zero());
}

#[test]
fn test_chargeback_empty_amount_parses_transaction_fields() {
    let csv = "type,client,tx,amount\nchargeback,5,10,\n";
    let messages = read_csv(csv).expect("should parse without error");
    assert_eq!(messages.len(), 1);
    let msg = &messages[0];
    assert_eq!(msg.transaction_type, TransactionType::Chargeback);
    assert_eq!(msg.client_id, 5);
    assert_eq!(msg.transaction_id, 10);
    assert_eq!(msg.amount, Amount::zero());
}

#[test]
fn test_whitespace_amount_field_is_zero() {
    let csv = "type,client,tx,amount\ndispute,1,1,   \nresolve,1,1,   \nchargeback,1,1,   \n";
    let messages = read_csv(csv).expect("should parse without error");
    assert_eq!(messages.len(), 3);
    for msg in &messages {
        assert_eq!(msg.amount, Amount::zero());
    }
}

#[test]
fn test_mixed_rows_empty_and_non_empty_amounts() {
    let csv = "type,client,tx,amount\ndeposit,1,1,100.0\nwithdrawal,1,2,50.0\ndispute,1,1,\nresolve,1,1,\nchargeback,1,1,\n";
    let messages = read_csv(csv).expect("should parse without error");
    assert_eq!(messages.len(), 5);
    assert_eq!(messages[0].amount, Amount::from_major(100));
    assert_eq!(messages[1].amount, Amount::from_major(50));
    assert_eq!(messages[2].amount, Amount::zero());
    assert_eq!(messages[3].amount, Amount::zero());
    assert_eq!(messages[4].amount, Amount::zero());
}

#[test]
fn test_chrono_order_assigned_for_empty_amount_rows() {
    let csv = "type,client,tx,amount\ndeposit,1,1,10\ndispute,1,1,\nresolve,1,1,\n";
    let messages = read_csv(csv).expect("should parse without error");
    assert_eq!(messages.len(), 3);
    assert_eq!(messages[0].chrono_order, 0);
    assert_eq!(messages[1].chrono_order, 1);
    assert_eq!(messages[2].chrono_order, 2);
}

#[test]
fn test_invalid_transaction_type_is_error() {
    let csv = "type,client,tx,amount\nrefund,1,1,100\n";
    let result = read_csv(csv);
    assert!(result.is_err(), "expected error for unknown transaction type");
}

fn raw(kind: &str, client: &str, tx: &str, amount: &str) -> RawInputMessage {
    RawInputMessage {
        kind: kind.to_string(),
        client: client.to_string(),
        tx: tx.to_string(),
        amount: amount.to_string(),
    }
}

#[test]
fn each_field_error_is_reported() {
    let mut decoder = CsvRecordDecoder::new();
    assert_eq!(
        decoder.decode(&raw("Deposit", "1", "1", "1")).unwrap_err(),
        RecordError::InvalidTransactionType
    );
    assert_eq!(
        decoder.decode(&raw("deposit", "65536", "1", "1")).unwrap_err(),
        RecordError::InvalidClientId
    );
    assert_eq!(
        decoder.decode(&raw("deposit", "-1", "1", "1")).unwrap_err(),
        RecordError::InvalidClientId
    );
    assert_eq!(
        decoder.decode(&raw("deposit", "1", "4294967296", "1")).unwrap_err(),
        RecordError::InvalidTransactionId
    );
    assert_eq!(
        decoder.decode(&raw("deposit", "1", "2", "1.2.3")).unwrap_err(),
        RecordError::InvalidAmount
    );
    // The type is checked before the other fields.
    assert_eq!(
        decoder.decode(&raw("refund", "x", "y", "z")).unwrap_err(),
        RecordError::InvalidTransactionType
    );
    // Failed rows take no chrono position; the next good row gets 0.
    let msg = decoder.decode(&raw("withdrawal", "+65535", "4294967295", "0.5")).unwrap();
    assert_eq!(msg.chrono_order, 0);
    assert_eq!(msg.client_id, 65535);
    assert_eq!(msg.transaction_id, u32::MAX);
    assert_eq!(msg.amount, Amount::from_scaled(5000));
    assert!(!decoder.is_done());
    assert_eq!(decoder.finish(), 1);
    assert!(decoder.is_done());
}

#[test]
fn amount_whose_scaling_overflows_is_invalid() {
    let mut decoder = CsvRecordDecoder::new();
    assert_eq!(
        decoder.decode(&raw("deposit", "1", "1", "1000000000000000")),
        Err(RecordError::InvalidAmount)
    );
    assert_eq!(decoder.rows_decoded(), 0);
    let msg = decoder.decode(&raw("deposit", "1", "1", "9.5")).unwrap();
    assert_eq!(msg.amount, Amount::from_scaled(95000));
}

#[test]
fn nothing_is_read_after_the_end() {
    let mut decoder = CsvRecordDecoder::new();
    let first = decoder.advance(Some(&raw("deposit", "1", "1", "5"))).unwrap().unwrap();
    assert_eq!(first.chrono_order, 0);
    assert_eq!(decoder.advance(None), Ok(None));
    assert!(decoder.is_done());
    // Once the end is reached, rows handed in later are ignored.
    assert_eq!(decoder.advance(Some(&raw("deposit", "1", "2", "5"))), Ok(None));
    assert_eq!(decoder.advance(None), Ok(None));
    assert_eq!(decoder.rows_decoded(), 1);
}

#[test]
fn a_row_that_fails_takes_no_number() {
    let mut decoder = CsvRecordDecoder::new();
    assert_eq!(
        decoder.advance(Some(&raw("refund", "1", "1", "5"))),
        Err(RecordError::InvalidTransactionType)
    );
    let msg = decoder.advance(Some(&raw("deposit", "1", "1", "5"))).unwrap().unwrap();
    assert_eq!(msg.chrono_order, 0);
}
