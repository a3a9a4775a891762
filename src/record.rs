//! Activity records as they come from a delimited text file: a header row names the columns,
//! the first column of every row holds the kind of activity, and the columns `client`, `tx` and
//! `amount` hold its fields (dispute activity has no amount).

use crate::account_activity::AccountActivity;
use crate::amount::{amount_of, Amount, MAX_DECIMAL_MANTISSA};
use crate::dispute::DisputeCase;
use crate::transaction::{Transaction, TransactionID};
use crate::ClientID;
use rust_decimal::Decimal;
use std::str::FromStr;
use vstd::prelude::*;
use vstd::string::StrSliceExecFns;

verus! {

broadcast use vstd::string::group_string_axioms;

/// The error type of the delimited-text format: the reader's own errors, the input's I/O errors,
/// and records that do not describe an activity.
#[derive(Debug)]
pub enum CsvProcessorError {
    Csv(csv::Error),
    Io(std::io::Error),
    InvalidFormat(String),
}

#[verifier::external_type_specification]
#[verifier::external_body]
pub struct ExCsvError(csv::Error);

#[verifier::external_type_specification]
#[verifier::external_body]
pub struct ExIoError(std::io::Error);

/// What `Decimal::from_str` reads from a text: its sign bit, signed mantissa and scale, or
/// nothing when the text is no decimal number.
pub uninterp spec fn decimal_text_parts(s: Seq<char>) -> Option<(bool, i128, u32)>;

/// Relies on `rust_decimal::Decimal::from_str`, which parses decimal text (and, failing that,
/// scientific notation), and on `Decimal::is_sign_negative`, `Decimal::mantissa` and
/// `Decimal::scale`, which read the parts of the result. The mantissa is stored in 96 bits.
#[verifier::external_body]
fn parse_decimal(s: &str) -> (r: Option<(bool, i128, u32)>)
    ensures
        r == decimal_text_parts(s@),
        r matches Some((_, m, _)) ==> -MAX_DECIMAL_MANTISSA <= m <= MAX_DECIMAL_MANTISSA,
{
    match Decimal::from_str(s) {
        Ok(d) => Some((d.is_sign_negative(), d.mantissa(), d.scale())),
        Err(_) => None,
    }
}

pub open spec fn is_digit(c: char) -> bool {
    '0' <= c <= '9'
}

pub open spec fn all_digits(s: Seq<char>) -> bool {
    forall|i: int| 0 <= i < s.len() ==> #[trigger] is_digit(s[i])
}

/// The number that a string of decimal digits denotes.
pub open spec fn digits_value(s: Seq<char>) -> int
    decreases s.len(),
{
    if s.len() == 0 {
        0
    } else {
        digits_value(s.drop_last()) * 10 + (s.last() as u32 - '0' as u32)
    }
}

/// The value of an unsigned decimal integer written as an optional `+` and one or more digits.
pub open spec fn unsigned_text_value(s: Seq<char>) -> Option<int> {
    let d = if s.len() > 0 && s[0] == '+' {
        s.drop_first()
    } else {
        s
    };
    if d.len() > 0 && all_digits(d) {
        Some(digits_value(d))
    } else {
        None
    }
}

/// The value of the unsigned decimal integer `s` if it is at most `max`.
pub open spec fn bounded_text_value(s: Seq<char>, max: int) -> Option<int> {
    match unsigned_text_value(s) {
        Some(v) => if 0 <= v <= max {
            Some(v)
        } else {
            None
        },
        None => None,
    }
}

proof fn lemma_digits_value_nonnegative(s: Seq<char>)
    requires
        all_digits(s),
    ensures
        digits_value(s) >= 0,
    decreases s.len(),
{
    if s.len() > 0 {
        assert(is_digit(s[s.len() - 1]));
        lemma_digits_value_nonnegative(s.drop_last());
    }
}

/// A longer string of digits has at least the value of its prefix.
proof fn lemma_digits_value_grows(s: Seq<char>, k: int)
    requires
        all_digits(s),
        0 <= k <= s.len(),
    ensures
        digits_value(s.subrange(0, k)) <= digits_value(s),
    decreases s.len(),
{
    if k < s.len() {
        assert(is_digit(s[s.len() - 1]));
        lemma_digits_value_grows(s.drop_last(), k);
        assert(s.drop_last().subrange(0, k) =~= s.subrange(0, k));
        lemma_digits_value_nonnegative(s.drop_last());
    } else {
        assert(s.subrange(0, k) =~= s);
    }
}

/// Reads an unsigned decimal integer no larger than `max`.
pub fn parse_bounded(s: &str, max: u64) -> (r: Option<u64>)
    ensures
        r == (match bounded_text_value(s@, max as int) {
            Some(v) => Some(v as u64),
            None => None::<u64>,
        }),
{
    let n = s.unicode_len();
    let mut start: usize = 0;
    if n > 0 && s.get_char(0) == '+' {
        start = 1;
    }
    let ghost d = s@.subrange(start as int, n as int);
    assert(d =~= (if s@.len() > 0 && s@[0] == '+' { s@.drop_first() } else { s@ }));
    if start == n {
        return None;
    }
    let mut i: usize = start;
    let mut acc: u64 = 0;
    assert(d.subrange(0, 0) =~= Seq::<char>::empty());
    while i < n
        invariant
            start <= i <= n,
            n == s@.len(),
            d == s@.subrange(start as int, n as int),
            d == (if s@.len() > 0 && s@[0] == '+' {
                s@.drop_first()
            } else {
                s@
            }),
            all_digits(d.subrange(0, i - start)),
            acc as int == digits_value(d.subrange(0, i - start)),
            acc <= max,
        decreases n - i,
    {
        let c = s.get_char(i);
        assert(d[i - start] == c);
        if !('0' <= c && c <= '9') {
            assert(!is_digit(d[i - start]));
            return None;
        }
        let digit = (c as u32 - '0' as u32) as u64;
        let ghost next = d.subrange(0, i - start + 1);
        assert(next.drop_last() =~= d.subrange(0, i - start));
        assert(next.last() == c);
        assert(digits_value(next) == acc * 10 + digit);
        assert(all_digits(next)) by {
            assert forall|j: int| 0 <= j < next.len() implies #[trigger] is_digit(next[j]) by {
                if j < next.len() - 1 {
                    assert(next[j] == d.subrange(0, i - start)[j]);
                }
            }
        }
        if digit > max || acc > (max - digit) / 10 {
            proof {
                assert(digits_value(next) > max) by (nonlinear_arith)
                    requires
                        digits_value(next) == acc * 10 + digit,
                        digit > max || acc > (max - digit) / 10,
                        acc >= 0,
                        digit >= 0,
                ;
                if all_digits(d) {
                    lemma_digits_value_grows(d, i - start + 1);
                }
            }
            return None;
        }
        proof {
            assert(acc * 10 + digit <= max) by (nonlinear_arith)
                requires
                    acc <= (max - digit) / 10,
                    digit <= max,
            ;
        }
        acc = acc * 10 + digit;
        i = i + 1;
    }
    assert(d.subrange(0, n - start) =~= d);
    Some(acc)
}

/// Whether two texts hold the same characters.
pub fn text_equals(a: &str, b: &str) -> (r: bool)
    ensures
        r == (a@ == b@),
{
    let n = a.unicode_len();
    if n != b.unicode_len() {
        return false;
    }
    let mut i: usize = 0;
    while i < n
        invariant
            i <= n,
            n == a@.len(),
            n == b@.len(),
            a@.subrange(0, i as int) == b@.subrange(0, i as int),
        decreases n - i,
    {
        if a.get_char(i) != b.get_char(i) {
            return false;
        }
        assert(a@.subrange(0, i + 1) =~= a@.subrange(0, i as int).push(a@[i as int]));
        assert(b@.subrange(0, i + 1) =~= b@.subrange(0, i as int).push(b@[i as int]));
        i = i + 1;
    }
    assert(a@ =~= a@.subrange(0, n as int));
    assert(b@ =~= b@.subrange(0, n as int));
    true
}

/// The texts of a row of fields.
pub open spec fn texts(v: Seq<String>) -> Seq<Seq<char>> {
    v.map_values(|s: String| s@)
}

/// The index of the first column at or after `from` whose header is `name`, or the number of
/// columns when there is none.
pub open spec fn column_of(headers: Seq<Seq<char>>, name: Seq<char>, from: nat) -> nat
    decreases headers.len() - from,
{
    if from >= headers.len() {
        headers.len()
    } else if headers[from as int] == name {
        from
    } else {
        column_of(headers, name, from + 1)
    }
}

/// The field of a record in the column headed `name`. The first column holds the kind of
/// activity whatever its header, and is not searched; a record shorter than the header row
/// lacks the fields of the missing columns.
pub open spec fn field_named(headers: Seq<Seq<char>>, fields: Seq<Seq<char>>, name: Seq<char>) -> Option<
    Seq<char>,
> {
    let i = column_of(headers, name, 1);
    if i < headers.len() && i < fields.len() {
        Some(fields[i as int])
    } else {
        None
    }
}

/// The transaction id and client id of a record.
pub open spec fn record_ids(headers: Seq<Seq<char>>, fields: Seq<Seq<char>>) -> Option<
    (TransactionID, ClientID),
> {
    match (field_named(headers, fields, "tx"@), field_named(headers, fields, "client"@)) {
        (Some(t), Some(c)) => match (
            bounded_text_value(t, u32::MAX as int),
            bounded_text_value(c, u16::MAX as int),
        ) {
            (Some(tv), Some(cv)) => Some((TransactionID(tv as u32), ClientID(cv as u16))),
            _ => None,
        },
        _ => None,
    }
}

pub open spec fn abs(m: int) -> int {
    if m < 0 {
        -m
    } else {
        m
    }
}

/// The amount of a record, when its text is a decimal that an [`Amount`] holds exactly.
pub open spec fn record_amount(headers: Seq<Seq<char>>, fields: Seq<Seq<char>>) -> Option<Amount> {
    match field_named(headers, fields, "amount"@) {
        Some(a) => match decimal_text_parts(a) {
            Some((negative, m, scale)) => amount_of(negative, abs(m as int), scale as nat),
            None => None,
        },
        None => None,
    }
}

/// The activity that a record describes, if any.
pub open spec fn record_activity(headers: Seq<Seq<char>>, fields: Seq<Seq<char>>) -> Option<
    AccountActivity,
> {
    if fields.len() == 0 {
        None
    } else {
        let kind = fields[0];
        match record_ids(headers, fields) {
            None => None,
            Some((tx, client)) => if kind == "deposit"@ || kind == "withdrawal"@ {
                match record_amount(headers, fields) {
                    Some(amount) => {
                        let t = Transaction { id: tx, client_id: client, amount };
                        if kind == "deposit"@ {
                            Some(AccountActivity::Deposit(t))
                        } else {
                            Some(AccountActivity::Withdrawal(t))
                        }
                    },
                    None => None,
                }
            } else {
                let d = DisputeCase { transaction_id: tx, client_id: client };
                if kind == "dispute"@ {
                    Some(AccountActivity::Dispute(d))
                } else if kind == "resolve"@ {
                    Some(AccountActivity::Resolve(d))
                } else if kind == "chargeback"@ {
                    Some(AccountActivity::Chargeback(d))
                } else {
                    None
                }
            },
        }
    }
}

/// The index of the first column after the first whose header is `name`, or the number of
/// columns.
fn find_column(headers: &Vec<String>, name: &str) -> (r: usize)
    ensures
        r == column_of(texts(headers@), name@, 1),
{
    let ghost h = texts(headers@);
    if headers.len() <= 1 {
        return headers.len();
    }
    let mut i: usize = 1;
    while i < headers.len()
        invariant
            1 <= i <= headers@.len(),
            h == texts(headers@),
            column_of(h, name@, 1) == column_of(h, name@, i as nat),
        decreases headers@.len() - i,
    {
        if text_equals(headers[i].as_str(), name) {
            return i;
        }
        i = i + 1;
    }
    headers.len()
}

/// The field in the column headed `name`, as [`field_named`] gives it.
fn field<'a>(headers: &Vec<String>, fields: &'a Vec<String>, name: &str) -> (r: Option<&'a str>)
    ensures
        r matches Some(f) ==> field_named(texts(headers@), texts(fields@), name@) == Some(f@),
        r is None ==> field_named(texts(headers@), texts(fields@), name@) is None,
{
    let i = find_column(headers, name);
    if i < headers.len() && i < fields.len() {
        Some(fields[i].as_str())
    } else {
        None
    }
}

/// Reads an amount from decimal text: `None` when the text is no decimal number or the number is
/// no whole count of ten-thousandths that fits in an [`Amount`].
pub fn parse_amount(s: &str) -> (r: Option<Amount>)
    ensures
        r == (match decimal_text_parts(s@) {
            Some((negative, m, scale)) => amount_of(negative, abs(m as int), scale as nat),
            None => None,
        }),
{
    match parse_decimal(s) {
        Some((negative, m, scale)) => {
            let magnitude: u128 = if m < 0 {
                (-m) as u128
            } else {
                m as u128
            };
            Amount::from_parts(negative, magnitude, scale)
        },
        None => None,
    }
}

fn invalid(message: &str) -> (r: CsvProcessorError)
    ensures
        r matches CsvProcessorError::InvalidFormat(m) && m@ == message@,
{
    CsvProcessorError::InvalidFormat(message.to_owned())
}

/// Reads one record: `fields` holds its columns in the order of `headers`.
///
/// The record is an activity exactly when [`record_activity`] gives one; otherwise the error is
/// `InvalidFormat`, with a message naming what is wrong.
pub fn parse_record(headers: &Vec<String>, fields: &Vec<String>) -> (r: Result<
    AccountActivity,
    CsvProcessorError,
>)
    ensures
        r matches Ok(a) ==> record_activity(texts(headers@), texts(fields@)) == Some(a),
        r matches Err(e) ==> record_activity(texts(headers@), texts(fields@)) is None
            && e is InvalidFormat,
{
    let ghost h = texts(headers@);
    let ghost f = texts(fields@);
    if fields.len() == 0 {
        return Err(invalid("empty record"));
    }
    let kind = fields[0].as_str();
    assert(kind@ == f[0]);
    let tx_text = match field(headers, fields, "tx") {
        Some(t) => t,
        None => return Err(invalid("missing field `tx`")),
    };
    let client_text = match field(headers, fields, "client") {
        Some(c) => c,
        None => return Err(invalid("missing field `client`")),
    };
    let tx = match parse_bounded(tx_text, 0xFFFF_FFFF) {
        Some(t) => TransactionID(t as u32),
        None => return Err(invalid("invalid transaction id")),
    };
    let client = match parse_bounded(client_text, 0xFFFF) {
        Some(c) => ClientID(c as u16),
        None => return Err(invalid("invalid client id")),
    };
    assert(record_ids(h, f) == Some((tx, client))) by {
        let tv = bounded_text_value(tx_text@, u32::MAX as int)->0;
        let cv = bounded_text_value(client_text@, u16::MAX as int)->0;
        assert(tx.0 == tv as u32);
        assert(client.0 == cv as u16);
    }
    let is_deposit = text_equals(kind, "deposit");
    if is_deposit || text_equals(kind, "withdrawal") {
        let amount = match field(headers, fields, "amount") {
            Some(a) => a,
            None => return Err(invalid("missing field `amount`")),
        };
        let amount = match parse_amount(amount) {
            Some(a) => a,
            None => return Err(invalid("invalid amount")),
        };
        let t = Transaction::new(tx, client, amount);
        if is_deposit {
            Ok(AccountActivity::Deposit(t))
        } else {
            Ok(AccountActivity::Withdrawal(t))
        }
    } else {
        let d = DisputeCase::new(tx, client);
        if text_equals(kind, "dispute") {
            Ok(AccountActivity::Dispute(d))
        } else if text_equals(kind, "resolve") {
            Ok(AccountActivity::Resolve(d))
        } else if text_equals(kind, "chargeback") {
            Ok(AccountActivity::Chargeback(d))
        } else {
            Err(invalid("unknown kind of activity"))
        }
    }
}

} // verus!
