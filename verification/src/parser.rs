//! A verified parser for the tabular transaction format.
//!
//! The input is a byte stream of newline-separated records with the columns
//! `type, client, tx, amount`. The first line is a header and is skipped.
//! Fields are separated by commas and may carry leading or trailing blanks
//! (spaces, tabs, carriage returns), which are trimmed. The `type` field must
//! be exactly one of the tokens `deposit`, `withdraw`, `withdrawal`,
//! `dispute`, `resolve` or `chargeback` — no other casing or spelling.
//! Amounts are decimal numbers with at most four fractional digits, read
//! into the fixed-point representation of [`crate::transaction::AMOUNT_SCALE`]
//! units.

use vstd::prelude::*;
use vstd::slice::slice_subrange;

use crate::model::{empty_state, run, EngineState};
use crate::transaction::Transaction;
use crate::TransactionEngine;

verus! {

/// Why one record was rejected by the parser.
#[derive(Clone, Copy, Debug, PartialEq, Eq, Structural)]
pub enum ParseError {
    /// A record needs the three columns `type, client, tx`, with `amount` as
    /// an optional fourth; nothing fewer or more.
    WrongFieldCount,
    /// The `type` field is not one of the recognized tokens.
    UnrecognizedTransactionType,
    /// The `client` field is not an integer up to 65535.
    InvalidClientId,
    /// The `tx` field is not an integer that fits 64 unsigned bits.
    InvalidTransactionId,
    /// A deposit or withdrawal record without an `amount` column.
    MissingAmount,
    /// The `amount` field is not a decimal this representation can hold.
    InvalidAmount,
}

/// The kind of record a `type` token names.
#[derive(Clone, Copy, Debug, PartialEq, Eq, Structural)]
pub enum RecordType {
    Deposit,
    Withdraw,
    Dispute,
    Resolve,
    Chargeback,
}

/// Blanks tolerated around fields: space, tab, carriage return.
pub open spec fn is_blank(b: u8) -> bool {
    b == 32 || b == 9 || b == 13
}

/// An ASCII decimal digit.
pub open spec fn is_digit(b: u8) -> bool {
    48 <= b <= 57
}

/// The index of the first occurrence of `sep` in `s`, or `s.len()` if there
/// is none.
pub open spec fn first_at(s: Seq<u8>, sep: u8) -> int
    decreases s.len(),
{
    if s.len() == 0 {
        0
    } else if s[0] == sep {
        0
    } else {
        1 + first_at(s.drop_first(), sep)
    }
}

proof fn lemma_first_at(s: Seq<u8>, sep: u8)
    ensures
        0 <= first_at(s, sep) <= s.len(),
        first_at(s, sep) < s.len() ==> s[first_at(s, sep)] == sep,
        forall|j: int| 0 <= j < first_at(s, sep) ==> s[j] != sep,
    decreases s.len(),
{
    if s.len() > 0 && s[0] != sep {
        lemma_first_at(s.drop_first(), sep);
        assert forall|j: int| 0 <= j < first_at(s, sep) implies s[j] != sep by {
            if j > 0 {
                assert(s[j] == s.drop_first()[j - 1]);
            }
        }
    }
}

/// `s` split at every occurrence of `sep`: one piece more than there are
/// separators, in order, each piece free of `sep`.
pub open spec fn spec_split(s: Seq<u8>, sep: u8) -> Seq<Seq<u8>>
    decreases s.len(),
{
    if s.len() == 0 {
        seq![s]
    } else if s[0] == sep {
        seq![Seq::<u8>::empty()] + spec_split(s.drop_first(), sep)
    } else {
        let rest = spec_split(s.drop_first(), sep);
        seq![seq![s[0]] + rest[0]] + rest.drop_first()
    }
}

proof fn lemma_split_nonempty(s: Seq<u8>, sep: u8)
    ensures
        spec_split(s, sep).len() >= 1,
    decreases s.len(),
{
    if s.len() > 0 {
        lemma_split_nonempty(s.drop_first(), sep);
    }
}

/// Splitting takes the prefix up to the first separator as the first piece
/// and splits the remainder.
proof fn lemma_split_first(s: Seq<u8>, sep: u8)
    ensures
        ({
            let i = first_at(s, sep);
            if i == s.len() {
                spec_split(s, sep) == seq![s]
            } else {
                spec_split(s, sep) == seq![s.subrange(0, i)] + spec_split(
                    s.subrange(i + 1, s.len() as int),
                    sep,
                )
            }
        }),
    decreases s.len(),
{
    lemma_first_at(s, sep);
    let i = first_at(s, sep);
    if s.len() == 0 {
    } else if s[0] == sep {
        assert(s.subrange(0, 0) =~= Seq::<u8>::empty());
        assert(s.subrange(1, s.len() as int) =~= s.drop_first());
    } else {
        let tail = s.drop_first();
        lemma_split_first(tail, sep);
        lemma_split_nonempty(tail, sep);
        lemma_first_at(tail, sep);
        let rest = spec_split(tail, sep);
        if i == s.len() {
            assert(first_at(tail, sep) == tail.len());
            assert(rest == seq![tail]);
            assert(seq![s[0]] + tail =~= s);
            assert(rest.drop_first() =~= Seq::<Seq<u8>>::empty());
            assert(spec_split(s, sep) =~= seq![s]);
        } else {
            assert(first_at(tail, sep) == i - 1);
            assert(rest == seq![tail.subrange(0, i - 1)] + spec_split(
                tail.subrange(i, tail.len() as int),
                sep,
            ));
            assert(rest[0] == tail.subrange(0, i - 1));
            assert(seq![s[0]] + tail.subrange(0, i - 1) =~= s.subrange(0, i));
            assert(tail.subrange(i, tail.len() as int) =~= s.subrange(i + 1, s.len() as int));
            assert(rest.drop_first() =~= spec_split(s.subrange(i + 1, s.len() as int), sep));
            assert(spec_split(s, sep) =~= seq![s.subrange(0, i)] + spec_split(
                s.subrange(i + 1, s.len() as int),
                sep,
            ));
        }
    }
}

/// `s` without its leading blanks.
pub open spec fn trim_front(s: Seq<u8>) -> Seq<u8>
    decreases s.len(),
{
    if s.len() > 0 && is_blank(s[0]) {
        trim_front(s.drop_first())
    } else {
        s
    }
}

/// `s` without its trailing blanks.
pub open spec fn trim_back(s: Seq<u8>) -> Seq<u8>
    decreases s.len(),
{
    if s.len() > 0 && is_blank(s.last()) {
        trim_back(s.drop_last())
    } else {
        s
    }
}

/// `s` without leading and trailing blanks.
pub open spec fn spec_trim(s: Seq<u8>) -> Seq<u8> {
    trim_back(trim_front(s))
}

/// Whether every byte of `s` is a decimal digit.
pub open spec fn all_digits(s: Seq<u8>) -> bool {
    forall|i: int| 0 <= i < s.len() ==> is_digit(#[trigger] s[i])
}

/// The number a string of decimal digits denotes, most significant first.
pub open spec fn digits_value(s: Seq<u8>) -> int
    decreases s.len(),
{
    if s.len() == 0 {
        0
    } else {
        10 * digits_value(s.drop_last()) + (s.last() - 48)
    }
}

proof fn lemma_digits_value_nonneg(s: Seq<u8>)
    requires
        all_digits(s),
    ensures
        digits_value(s) >= 0,
    decreases s.len(),
{
    if s.len() > 0 {
        assert(forall|i: int|
            0 <= i < s.drop_last().len() ==> s.drop_last()[i] == #[trigger] s[i]);
        lemma_digits_value_nonneg(s.drop_last());
    }
}

/// The value of a prefix of a digit string never exceeds the whole string's
/// value.
proof fn lemma_digits_prefix_le(s: Seq<u8>, i: int)
    requires
        all_digits(s),
        0 <= i <= s.len(),
    ensures
        digits_value(s.subrange(0, i)) <= digits_value(s),
    decreases s.len() - i,
{
    if i < s.len() {
        let shorter = s.subrange(0, i);
        let longer = s.subrange(0, i + 1);
        assert(longer.drop_last() =~= shorter);
        assert(forall|j: int| 0 <= j < shorter.len() ==> shorter[j] == #[trigger] s[j]);
        lemma_digits_value_nonneg(shorter);
        assert(digits_value(longer) == 10 * digits_value(shorter) + (longer.last() - 48));
        assert(digits_value(shorter) <= digits_value(longer));
        lemma_digits_prefix_le(s, i + 1);
        assert(s.subrange(0, s.len() as int) =~= s);
    } else {
        assert(s.subrange(0, i) =~= s);
    }
}

/// Ten to the `n`.
pub open spec fn pow10(n: nat) -> int
    decreases n,
{
    if n == 0 {
        1
    } else {
        10 * pow10((n - 1) as nat)
    }
}

/// A digit string of length `n` denotes a value below ten to the `n`.
proof fn lemma_digits_value_upper(s: Seq<u8>)
    requires
        all_digits(s),
    ensures
        digits_value(s) < pow10(s.len()),
    decreases s.len(),
{
    if s.len() > 0 {
        assert(forall|i: int|
            0 <= i < s.drop_last().len() ==> s.drop_last()[i] == #[trigger] s[i]);
        lemma_digits_value_upper(s.drop_last());
        assert(s.last() - 48 <= 9);
    }
}

/// The number a `client` or `tx` field denotes: the field must be nonempty,
/// all digits, and fit the target width.
pub open spec fn spec_parse_u64(s: Seq<u8>) -> Option<u64> {
    if s.len() > 0 && all_digits(s) && digits_value(s) <= u64::MAX {
        Some(digits_value(s) as u64)
    } else {
        None
    }
}

pub open spec fn spec_parse_u16(s: Seq<u8>) -> Option<u16> {
    if s.len() > 0 && all_digits(s) && digits_value(s) <= u16::MAX {
        Some(digits_value(s) as u16)
    } else {
        None
    }
}

/// Finds the first occurrence of `b` in `s` at or after `from`, returning
/// `s.len()` if there is none.
fn find_byte(s: &[u8], from: usize, b: u8) -> (r: usize)
    requires
        from <= s@.len(),
    ensures
        from <= r <= s@.len(),
        r - from == first_at(s@.subrange(from as int, s@.len() as int), b),
    decreases s@.len() - from,
{
    if from == s.len() {
        return from;
    }
    if s[from] == b {
        return from;
    }
    let r = find_byte(s, from + 1, b);
    proof {
        assert(s@.subrange(from as int, s@.len() as int).drop_first() =~= s@.subrange(
            from as int + 1,
            s@.len() as int,
        ));
    }
    r
}

/// Trims the blanks off both ends of a field.
fn trim(s: &[u8]) -> (r: &[u8])
    ensures
        r@ == spec_trim(s@),
{
    proof {
        assert(s@.subrange(0, s@.len() as int) =~= s@);
    }
    let mut start: usize = 0;
    while start < s.len() && (s[start] == 32 || s[start] == 9 || s[start] == 13)
        invariant
            0 <= start <= s@.len(),
            trim_front(s@) == trim_front(s@.subrange(start as int, s@.len() as int)),
        decreases s@.len() - start,
    {
        proof {
            assert(s@.subrange(start as int, s@.len() as int)[0] == s@[start as int]);
            assert(s@.subrange(start as int, s@.len() as int).drop_first() =~= s@.subrange(
                start as int + 1,
                s@.len() as int,
            ));
        }
        start += 1;
    }
    proof {
        if start < s@.len() {
            assert(s@.subrange(start as int, s@.len() as int)[0] == s@[start as int]);
        }
        assert(trim_front(s@) == s@.subrange(start as int, s@.len() as int));
    }
    let mut end: usize = s.len();
    while end > start && (s[end - 1] == 32 || s[end - 1] == 9 || s[end - 1] == 13)
        invariant
            start <= end <= s@.len(),
            trim_back(s@.subrange(start as int, s@.len() as int)) == trim_back(
                s@.subrange(start as int, end as int),
            ),
        decreases end,
    {
        proof {
            assert(s@.subrange(start as int, end as int).last() == s@[end as int - 1]);
            assert(s@.subrange(start as int, end as int).drop_last() =~= s@.subrange(
                start as int,
                end as int - 1,
            ));
        }
        end -= 1;
    }
    proof {
        if end > start {
            assert(s@.subrange(start as int, end as int).last() == s@[end as int - 1]);
        }
        assert(trim_back(s@.subrange(start as int, s@.len() as int)) == s@.subrange(start as int, end as int));
    }
    slice_subrange(s, start, end)
}

/// Reads a digit field into a 64-bit number.
fn parse_u64_bytes(s: &[u8]) -> (r: Option<u64>)
    ensures
        r == spec_parse_u64(s@),
{
    if s.len() == 0 {
        return None;
    }
    let mut value: u64 = 0;
    let mut i: usize = 0;
    while i < s.len()
        invariant
            0 <= i <= s@.len(),
            s@.len() > 0,
            all_digits(s@.subrange(0, i as int)),
            value == digits_value(s@.subrange(0, i as int)),
        decreases s@.len() - i,
    {
        let b = s[i];
        if b < 48 || b > 57 {
            proof {
                assert(!is_digit(s@[i as int]));
            }
            return None;
        }
        let digit = (b - 48) as u64;
        let wide: u128 = value as u128 * 10 + digit as u128;
        proof {
            assert(s@.subrange(0, i as int + 1).drop_last() =~= s@.subrange(0, i as int));
            assert(s@.subrange(0, i as int + 1).last() == s@[i as int]);
            assert(forall|j: int|
                0 <= j < i + 1 ==> s@.subrange(0, i as int + 1)[j] == #[trigger] s@[j]);
            assert(digits_value(s@.subrange(0, i as int + 1)) == wide);
            assert(all_digits(s@.subrange(0, i as int + 1)));
        }
        if wide > u64::MAX as u128 {
            proof {
                if all_digits(s@) {
                    lemma_digits_prefix_le(s@, i as int + 1);
                }
            }
            return None;
        }
        value = wide as u64;
        i += 1;
    }
    proof {
        assert(s@.subrange(0, s@.len() as int) =~= s@);
    }
    Some(value)
}

/// Reads a digit field into a 16-bit client id.
fn parse_u16_bytes(s: &[u8]) -> (r: Option<u16>)
    ensures
        r == spec_parse_u16(s@),
{
    match parse_u64_bytes(s) {
        Some(v) => {
            proof {
                lemma_digits_value_nonneg(s@);
            }
            if v <= 65535 {
                Some(v as u16)
            } else {
                None
            }
        },
        None => None,
    }
}

proof fn lemma_pow10_small()
    ensures
        pow10(0) == 1,
        pow10(1) == 10,
        pow10(2) == 100,
        pow10(3) == 1000,
        pow10(4) == 10000,
{
    assert(pow10(0) == 1);
    assert(pow10(1) == 10);
    assert(pow10(2) == 100);
    assert(pow10(3) == 1000);
    assert(pow10(4) == 10000);
}

/// The factor that scales a fraction of `n` digits to four decimal places.
pub open spec fn frac_scale(n: int) -> int {
    if n <= 0 {
        10000
    } else if n == 1 {
        1000
    } else if n == 2 {
        100
    } else if n == 3 {
        10
    } else {
        1
    }
}

/// The magnitude an unsigned decimal field denotes, in fixed-point units of
/// four decimal places: digits, optionally with one point and at most four
/// fraction digits, at least one digit in all.
pub open spec fn spec_amount_magnitude(s: Seq<u8>) -> Option<int> {
    let dot = first_at(s, 46);
    if dot == s.len() {
        if s.len() > 0 && all_digits(s) {
            Some(10000 * digits_value(s))
        } else {
            None
        }
    } else {
        let whole = s.subrange(0, dot);
        let frac = s.subrange(dot + 1, s.len() as int);
        if s.len() > 1 && all_digits(whole) && all_digits(frac) && frac.len() <= 4 {
            Some(10000 * digits_value(whole) + frac_scale(frac.len() as int) * digits_value(frac))
        } else {
            None
        }
    }
}

/// The signed amount an `amount` field denotes, if it fits the 64-bit
/// fixed-point representation: an optional leading minus sign, then an
/// unsigned decimal magnitude.
pub open spec fn spec_parse_amount(s: Seq<u8>) -> Option<i64> {
    if s.len() > 0 && s[0] == 45 {
        match spec_amount_magnitude(s.drop_first()) {
            Some(m) => if -m >= i64::MIN {
                Some((-m) as i64)
            } else {
                None
            },
            None => None,
        }
    } else {
        match spec_amount_magnitude(s) {
            Some(m) => if m <= i64::MAX {
                Some(m as i64)
            } else {
                None
            },
            None => None,
        }
    }
}

/// Whether two byte fields hold the same bytes.
fn bytes_eq(a: &[u8], b: &[u8]) -> (r: bool)
    ensures
        r == (a@ == b@),
{
    if a.len() != b.len() {
        return false;
    }
    let mut i: usize = 0;
    while i < a.len()
        invariant
            a@.len() == b@.len(),
            0 <= i <= a@.len(),
            forall|j: int| 0 <= j < i ==> a@[j] == b@[j],
        decreases a@.len() - i,
    {
        if a[i] != b[i] {
            return false;
        }
        i += 1;
    }
    proof {
        assert(a@ =~= b@);
    }
    true
}

/// The bytes of the token `deposit`.
pub open spec fn deposit_token() -> Seq<u8> {
    seq![100u8, 101u8, 112u8, 111u8, 115u8, 105u8, 116u8]
}

/// The bytes of the token `withdraw`.
pub open spec fn withdraw_token() -> Seq<u8> {
    seq![119u8, 105u8, 116u8, 104u8, 100u8, 114u8, 97u8, 119u8]
}

/// The bytes of the token `withdrawal`.
pub open spec fn withdrawal_token() -> Seq<u8> {
    seq![119u8, 105u8, 116u8, 104u8, 100u8, 114u8, 97u8, 119u8, 97u8, 108u8]
}

/// The bytes of the token `dispute`.
pub open spec fn dispute_token() -> Seq<u8> {
    seq![100u8, 105u8, 115u8, 112u8, 117u8, 116u8, 101u8]
}

/// The bytes of the token `resolve`.
pub open spec fn resolve_token() -> Seq<u8> {
    seq![114u8, 101u8, 115u8, 111u8, 108u8, 118u8, 101u8]
}

/// The bytes of the token `chargeback`.
pub open spec fn chargeback_token() -> Seq<u8> {
    seq![99u8, 104u8, 97u8, 114u8, 103u8, 101u8, 98u8, 97u8, 99u8, 107u8]
}

/// The record kind a trimmed `type` field names: one exact token per kind,
/// with `withdraw` and `withdrawal` naming the same kind.
pub open spec fn spec_record_type(s: Seq<u8>) -> Option<RecordType> {
    if s == deposit_token() {
        Some(RecordType::Deposit)
    } else if s == withdraw_token() || s == withdrawal_token() {
        Some(RecordType::Withdraw)
    } else if s == dispute_token() {
        Some(RecordType::Dispute)
    } else if s == resolve_token() {
        Some(RecordType::Resolve)
    } else if s == chargeback_token() {
        Some(RecordType::Chargeback)
    } else {
        None
    }
}

/// Recognizes a trimmed `type` field.
fn record_type(field: &[u8]) -> (r: Option<RecordType>)
    ensures
        r == spec_record_type(field@),
{
    let deposit: Vec<u8> = vec![100u8, 101u8, 112u8, 111u8, 115u8, 105u8, 116u8];
    proof {
        assert(deposit@ =~= deposit_token());
    }
    if bytes_eq(field, deposit.as_slice()) {
        return Some(RecordType::Deposit);
    }
    let withdraw: Vec<u8> = vec![119u8, 105u8, 116u8, 104u8, 100u8, 114u8, 97u8, 119u8];
    proof {
        assert(withdraw@ =~= withdraw_token());
    }
    if bytes_eq(field, withdraw.as_slice()) {
        return Some(RecordType::Withdraw);
    }
    let withdrawal: Vec<u8> = vec![
        119u8,
        105u8,
        116u8,
        104u8,
        100u8,
        114u8,
        97u8,
        119u8,
        97u8,
        108u8,
    ];
    proof {
        assert(withdrawal@ =~= withdrawal_token());
    }
    if bytes_eq(field, withdrawal.as_slice()) {
        return Some(RecordType::Withdraw);
    }
    let dispute: Vec<u8> = vec![100u8, 105u8, 115u8, 112u8, 117u8, 116u8, 101u8];
    proof {
        assert(dispute@ =~= dispute_token());
    }
    if bytes_eq(field, dispute.as_slice()) {
        return Some(RecordType::Dispute);
    }
    let resolve: Vec<u8> = vec![114u8, 101u8, 115u8, 111u8, 108u8, 118u8, 101u8];
    proof {
        assert(resolve@ =~= resolve_token());
    }
    if bytes_eq(field, resolve.as_slice()) {
        return Some(RecordType::Resolve);
    }
    let chargeback: Vec<u8> = vec![99u8, 104u8, 97u8, 114u8, 103u8, 101u8, 98u8, 97u8, 99u8, 107u8];
    proof {
        assert(chargeback@ =~= chargeback_token());
    }
    if bytes_eq(field, chargeback.as_slice()) {
        return Some(RecordType::Chargeback);
    }
    None
}

/// Reads an unsigned decimal field into fixed-point units. `None` stands for
/// a field that is not a decimal, or one whose magnitude is far beyond the
/// signed 64-bit range either way.
fn parse_magnitude(s: &[u8]) -> (r: Option<i128>)
    ensures
        r matches Some(m) ==> spec_amount_magnitude(s@) == Some(m as int) && 0 <= m,
        r is None ==> (spec_amount_magnitude(s@) is None || (spec_amount_magnitude(s@)
            matches Some(m) && m > i64::MAX as int + 1)),
{
    let dot = find_byte(s, 0, 46);
    proof {
        assert(s@.subrange(0, s@.len() as int) =~= s@);
    }
    if dot == s.len() {
        if s.len() == 0 {
            return None;
        }
        match parse_u64_bytes(s) {
            Some(v) => {
                proof {
                    lemma_digits_value_nonneg(s@);
                }
                Some(v as i128 * 10000)
            },
            None => {
                proof {
                    if all_digits(s@) {
                        lemma_digits_value_nonneg(s@);
                        assert(digits_value(s@) > u64::MAX);
                    }
                }
                None
            },
        }
    } else {
        let whole = slice_subrange(s, 0, dot);
        let frac = slice_subrange(s, dot + 1, s.len());
        if s.len() <= 1 {
            return None;
        }
        if frac.len() > 4 {
            return None;
        }
        let whole_value: u64 = if whole.len() == 0 {
            0
        } else {
            match parse_u64_bytes(whole) {
                Some(v) => v,
                None => {
                    proof {
                        if all_digits(whole@) && all_digits(frac@) {
                            lemma_digits_value_nonneg(whole@);
                            lemma_digits_value_nonneg(frac@);
                            assert(digits_value(whole@) > u64::MAX);
                            assert(frac_scale(frac@.len() as int) * digits_value(frac@) >= 0);
                        }
                    }
                    return None;
                },
            }
        };
        let frac_value: u64 = if frac.len() == 0 {
            0
        } else {
            match parse_u64_bytes(frac) {
                Some(v) => v,
                None => {
                    proof {
                        if all_digits(frac@) {
                            lemma_digits_value_upper(frac@);
                            lemma_pow10_small();
                        }
                    }
                    return None;
                },
            }
        };
        proof {
            if frac@.len() > 0 {
                lemma_digits_value_upper(frac@);
                lemma_pow10_small();
            }
            lemma_digits_value_nonneg(whole@);
            lemma_digits_value_nonneg(frac@);
        }
        let frac_scaled: i128 = if frac.len() == 0 {
            0
        } else if frac.len() == 1 {
            frac_value as i128 * 1000
        } else if frac.len() == 2 {
            frac_value as i128 * 100
        } else if frac.len() == 3 {
            frac_value as i128 * 10
        } else {
            frac_value as i128
        };
        let m: i128 = whole_value as i128 * 10000 + frac_scaled;
        Some(m)
    }
}

/// Reads a signed `amount` field into fixed-point units.
fn parse_amount_bytes(s: &[u8]) -> (r: Option<i64>)
    ensures
        r == spec_parse_amount(s@),
{
    if s.len() > 0 && s[0] == 45 {
        let body = slice_subrange(s, 1, s.len());
        proof {
            assert(body@ =~= s@.drop_first());
        }
        match parse_magnitude(body) {
            Some(m) => if -m >= i64::MIN as i128 {
                Some((-m) as i64)
            } else {
                None
            },
            None => None,
        }
    } else {
        match parse_magnitude(s) {
            Some(m) => if m <= i64::MAX as i128 {
                Some(m as i64)
            } else {
                None
            },
            None => None,
        }
    }
}

/// The view of an optional field.
pub open spec fn opt_view(field: Option<&[u8]>) -> Option<Seq<u8>> {
    match field {
        Some(f) => Some(f@),
        None => None,
    }
}

/// What a record denotes, given its `type`, `client` and `tx` fields and its
/// optional `amount` field, each still untrimmed.
pub open spec fn spec_build_record(
    type_field: Seq<u8>,
    client_field: Seq<u8>,
    tx_field: Seq<u8>,
    amount_field: Option<Seq<u8>>,
) -> Result<Transaction, ParseError> {
    match spec_record_type(spec_trim(type_field)) {
        None => Err(ParseError::UnrecognizedTransactionType),
        Some(kind) => match spec_parse_u16(spec_trim(client_field)) {
            None => Err(ParseError::InvalidClientId),
            Some(client_id) => match spec_parse_u64(spec_trim(tx_field)) {
                None => Err(ParseError::InvalidTransactionId),
                Some(transaction_id) => match kind {
                    RecordType::Deposit => match amount_field {
                        None => Err(ParseError::MissingAmount),
                        Some(a) => match spec_parse_amount(spec_trim(a)) {
                            None => Err(ParseError::InvalidAmount),
                            Some(amount) => Ok(
                                Transaction::Deposit {
                                    transaction_id,
                                    client_id,
                                    amount,
                                    disputed: false,
                                },
                            ),
                        },
                    },
                    RecordType::Withdraw => match amount_field {
                        None => Err(ParseError::MissingAmount),
                        Some(a) => match spec_parse_amount(spec_trim(a)) {
                            None => Err(ParseError::InvalidAmount),
                            Some(amount) => Ok(
                                Transaction::Withdraw { transaction_id, client_id, amount },
                            ),
                        },
                    },
                    RecordType::Dispute => Ok(Transaction::Dispute { transaction_id, client_id }),
                    RecordType::Resolve => Ok(Transaction::Resolve { transaction_id, client_id }),
                    RecordType::Chargeback => Ok(
                        Transaction::Chargeback { transaction_id, client_id },
                    ),
                },
            },
        },
    }
}

/// What one nonempty record line denotes: its comma-separated fields must be
/// the three columns `type, client, tx`, or those plus an `amount` column,
/// which only deposits and withdrawals read.
pub open spec fn spec_parse_record(line: Seq<u8>) -> Result<Transaction, ParseError> {
    let fields = spec_split(line, 44);
    if fields.len() == 3 {
        spec_build_record(fields[0], fields[1], fields[2], None)
    } else if fields.len() == 4 {
        spec_build_record(fields[0], fields[1], fields[2], Some(fields[3]))
    } else {
        Err(ParseError::WrongFieldCount)
    }
}

/// Builds the transaction a record denotes from its separated fields.
fn build_record(
    type_field: &[u8],
    client_field: &[u8],
    tx_field: &[u8],
    amount_field: Option<&[u8]>,
) -> (result: Result<Transaction, ParseError>)
    ensures
        result == spec_build_record(type_field@, client_field@, tx_field@, opt_view(amount_field)),
{
    let kind = match record_type(trim(type_field)) {
        Some(kind) => kind,
        None => {
            return Err(ParseError::UnrecognizedTransactionType);
        },
    };
    let client_id = match parse_u16_bytes(trim(client_field)) {
        Some(v) => v,
        None => {
            return Err(ParseError::InvalidClientId);
        },
    };
    let transaction_id = match parse_u64_bytes(trim(tx_field)) {
        Some(v) => v,
        None => {
            return Err(ParseError::InvalidTransactionId);
        },
    };
    match kind {
        RecordType::Deposit | RecordType::Withdraw => {
            let amount_bytes = match amount_field {
                Some(a) => a,
                None => {
                    return Err(ParseError::MissingAmount);
                },
            };
            let amount = match parse_amount_bytes(trim(amount_bytes)) {
                Some(v) => v,
                None => {
                    return Err(ParseError::InvalidAmount);
                },
            };
            if matches!(kind, RecordType::Deposit) {
                Ok(Transaction::Deposit { transaction_id, client_id, amount, disputed: false })
            } else {
                Ok(Transaction::Withdraw { transaction_id, client_id, amount })
            }
        },
        RecordType::Dispute => Ok(Transaction::Dispute { transaction_id, client_id }),
        RecordType::Resolve => Ok(Transaction::Resolve { transaction_id, client_id }),
        RecordType::Chargeback => Ok(Transaction::Chargeback { transaction_id, client_id }),
    }
}

/// Parses one nonempty record line.
#[verifier::rlimit(100)]
pub fn parse_record(line: &[u8]) -> (result: Result<Transaction, ParseError>)
    ensures
        result == spec_parse_record(line@),
{
    let len = line.len();
    let ghost fields = spec_split(line@, 44);
    let c1 = find_byte(line, 0, 44);
    proof {
        assert(line@.subrange(0, line@.len() as int) =~= line@);
        lemma_split_first(line@, 44);
    }
    if c1 == len {
        return Err(ParseError::WrongFieldCount);
    }
    let ghost rest1 = line@.subrange(c1 as int + 1, line@.len() as int);
    let c2 = find_byte(line, c1 + 1, 44);
    proof {
        lemma_split_first(rest1, 44);
    }
    if c2 == len {
        proof {
            assert(fields.len() == 2);
        }
        return Err(ParseError::WrongFieldCount);
    }
    proof {
        assert(rest1.subrange(0, c2 as int - c1 as int - 1) =~= line@.subrange(
            c1 as int + 1,
            c2 as int,
        ));
        assert(rest1.subrange(c2 as int - c1 as int, rest1.len() as int) =~= line@.subrange(
            c2 as int + 1,
            line@.len() as int,
        ));
    }
    let ghost rest2 = line@.subrange(c2 as int + 1, line@.len() as int);
    let c3 = find_byte(line, c2 + 1, 44);
    proof {
        lemma_split_first(rest2, 44);
    }
    let f0 = slice_subrange(line, 0, c1);
    let f1 = slice_subrange(line, c1 + 1, c2);
    if c3 == len {
        proof {
            assert(fields =~= seq![f0@, f1@, rest2]);
        }
        let f2 = slice_subrange(line, c2 + 1, len);
        let result = build_record(f0, f1, f2, None);
        return result;
    }
    proof {
        assert(rest2.subrange(0, c3 as int - c2 as int - 1) =~= line@.subrange(
            c2 as int + 1,
            c3 as int,
        ));
        assert(rest2.subrange(c3 as int - c2 as int, rest2.len() as int) =~= line@.subrange(
            c3 as int + 1,
            line@.len() as int,
        ));
    }
    let ghost rest3 = line@.subrange(c3 as int + 1, line@.len() as int);
    let c4 = find_byte(line, c3 + 1, 44);
    proof {
        lemma_split_first(rest3, 44);
    }
    if c4 < len {
        proof {
            lemma_split_nonempty(rest3.subrange(c4 as int - c3 as int, rest3.len() as int), 44);
            assert(fields.len() >= 5);
        }
        return Err(ParseError::WrongFieldCount);
    }
    let f2 = slice_subrange(line, c2 + 1, c3);
    let f3 = slice_subrange(line, c3 + 1, len);
    proof {
        assert(fields =~= seq![f0@, f1@, f2@, rest3]);
    }
    let result = build_record(f0, f1, f2, Some(f3));
    result
}

/// The record lines of an input: everything after the header line.
pub open spec fn spec_input_lines(input: Seq<u8>) -> Seq<Seq<u8>> {
    spec_split(input, 10).drop_first()
}

/// What a sequence of record lines denotes when the first failure is
/// reported: the transactions of the nonempty lines in order, or the first
/// line's error. Empty lines are skipped.
pub open spec fn spec_parse_lines(lines: Seq<Seq<u8>>) -> Result<Seq<Transaction>, ParseError>
    decreases lines.len(),
{
    if lines.len() == 0 {
        Ok(Seq::empty())
    } else {
        let rest = spec_parse_lines(lines.drop_first());
        if lines[0].len() == 0 {
            rest
        } else {
            match spec_parse_record(lines[0]) {
                Err(e) => Err(e),
                Ok(t) => match rest {
                    Ok(ts) => Ok(seq![t] + ts),
                    Err(e) => Err(e),
                },
            }
        }
    }
}

/// The transactions of the lines that parse, in order, with empty and
/// malformed lines skipped.
pub open spec fn spec_ok_lines(lines: Seq<Seq<u8>>) -> Seq<Transaction>
    decreases lines.len(),
{
    if lines.len() == 0 {
        Seq::empty()
    } else {
        let rest = spec_ok_lines(lines.drop_first());
        if lines[0].len() == 0 {
            rest
        } else {
            match spec_parse_record(lines[0]) {
                Ok(t) => seq![t] + rest,
                Err(_) => rest,
            }
        }
    }
}

/// What a whole input denotes under first-failure reporting.
pub open spec fn spec_parse_transactions(input: Seq<u8>) -> Result<Seq<Transaction>, ParseError> {
    spec_parse_lines(spec_input_lines(input))
}

/// The engine state a whole input drives a fresh engine to, when malformed
/// records are skipped and rejected transactions are reported and passed
/// over.
pub open spec fn spec_transactions_applied(input: Seq<u8>) -> EngineState {
    run(empty_state(), spec_ok_lines(spec_input_lines(input)))
}

/// Parses every record of an input, stopping at the first malformed one.
/// The first line is the header and is skipped, as are empty lines.
pub fn parse_transactions(input: &[u8]) -> (result: Result<Vec<Transaction>, ParseError>)
    ensures
        ({
            let parsed = spec_parse_transactions(input@);
            match result {
                Ok(v) => parsed == Ok::<Seq<Transaction>, ParseError>(v@),
                Err(e) => parsed == Err::<Seq<Transaction>, ParseError>(e),
            }
        }),
{
    let header_end = find_byte(input, 0, 10);
    proof {
        assert(input@.subrange(0, input@.len() as int) =~= input@);
        lemma_split_first(input@, 10);
    }
    let mut transactions: Vec<Transaction> = Vec::new();
    if header_end == input.len() {
        proof {
            assert(spec_input_lines(input@) =~= Seq::<Seq<u8>>::empty());
        }
        return Ok(transactions);
    }
    let mut from: usize = header_end + 1;
    proof {
        assert(spec_split(input@, 10).drop_first() =~= spec_split(
            input@.subrange(from as int, input@.len() as int),
            10,
        ));
    }
    loop
        invariant
            from <= input@.len(),
            ({
                let remaining = spec_parse_lines(
                    spec_split(input@.subrange(from as int, input@.len() as int), 10),
                );
                match remaining {
                    Ok(ts) => spec_parse_transactions(input@) == Ok::<
                        Seq<Transaction>,
                        ParseError,
                    >(transactions@ + ts),
                    Err(e) => spec_parse_transactions(input@) == Err::<
                        Seq<Transaction>,
                        ParseError,
                    >(e),
                }
            }),
        decreases input@.len() - from,
    {
        let ghost suffix = input@.subrange(from as int, input@.len() as int);
        let ghost suffix_lines = spec_split(suffix, 10);
        let nl = find_byte(input, from, 10);
        proof {
            lemma_split_first(suffix, 10);
        }
        let line = slice_subrange(input, from, nl);
        proof {
            if (nl as int) < input@.len() as int {
                assert(suffix.subrange(0, nl as int - from as int) =~= line@);
                assert(suffix.subrange(nl as int - from as int + 1, suffix.len() as int)
                    =~= input@.subrange(nl as int + 1, input@.len() as int));
                assert(suffix_lines == seq![line@] + spec_split(
                    input@.subrange(nl as int + 1, input@.len() as int),
                    10,
                ));
                assert(suffix_lines.drop_first() =~= spec_split(
                    input@.subrange(nl as int + 1, input@.len() as int),
                    10,
                ));
            } else {
                assert(suffix =~= line@);
                assert(suffix_lines == seq![line@]);
                assert(suffix_lines.drop_first() =~= Seq::<Seq<u8>>::empty());
            }
            assert(suffix_lines[0] == line@);
        }
        if line.len() > 0 {
            match parse_record(line) {
                Ok(t) => {
                    let ghost before = transactions@;
                    transactions.push(t);
                    proof {
                        assert(transactions@ =~= before + seq![t]);
                        let rest_parsed = spec_parse_lines(suffix_lines.drop_first());
                        if rest_parsed is Ok {
                            let ts = rest_parsed->Ok_0;
                            assert((before + seq![t]) + ts =~= before + (seq![t] + ts));
                        }
                    }
                },
                Err(e) => {
                    return Err(e);
                },
            }
        }
        if nl == input.len() {
            return Ok(transactions);
        }
        from = nl + 1;
    }
}

/// Drives a fresh engine over every record of an input: malformed lines are
/// skipped, rejected transactions leave only the partial effects the engine
/// rules give them, and processing always continues. The first line is the
/// header.
pub fn handle_transactions(input: &[u8]) -> (engine: TransactionEngine)
    ensures
        engine@ == spec_transactions_applied(input@),
{
    let mut engine = TransactionEngine::default();
    let header_end = find_byte(input, 0, 10);
    proof {
        assert(input@.subrange(0, input@.len() as int) =~= input@);
        lemma_split_first(input@, 10);
    }
    if header_end == input.len() {
        proof {
            assert(spec_input_lines(input@) =~= Seq::<Seq<u8>>::empty());
        }
        return engine;
    }
    let mut from: usize = header_end + 1;
    proof {
        assert(spec_split(input@, 10).drop_first() =~= spec_split(
            input@.subrange(from as int, input@.len() as int),
            10,
        ));
    }
    loop
        invariant
            from <= input@.len(),
            spec_transactions_applied(input@) == run(
                engine@,
                spec_ok_lines(spec_split(input@.subrange(from as int, input@.len() as int), 10)),
            ),
        decreases input@.len() - from,
    {
        let ghost suffix = input@.subrange(from as int, input@.len() as int);
        let ghost suffix_lines = spec_split(suffix, 10);
        let nl = find_byte(input, from, 10);
        proof {
            lemma_split_first(suffix, 10);
        }
        let line = slice_subrange(input, from, nl);
        proof {
            if (nl as int) < input@.len() as int {
                assert(suffix.subrange(0, nl as int - from as int) =~= line@);
                assert(suffix.subrange(nl as int - from as int + 1, suffix.len() as int)
                    =~= input@.subrange(nl as int + 1, input@.len() as int));
                assert(suffix_lines == seq![line@] + spec_split(
                    input@.subrange(nl as int + 1, input@.len() as int),
                    10,
                ));
                assert(suffix_lines.drop_first() =~= spec_split(
                    input@.subrange(nl as int + 1, input@.len() as int),
                    10,
                ));
            } else {
                assert(suffix =~= line@);
                assert(suffix_lines == seq![line@]);
                assert(suffix_lines.drop_first() =~= Seq::<Seq<u8>>::empty());
            }
            assert(suffix_lines[0] == line@);
        }
        if line.len() > 0 {
            match parse_record(line) {
                Ok(t) => {
                    let ghost pre = engine@;
                    let _ = engine.handle(t);
                    proof {
                        let rest = spec_ok_lines(suffix_lines.drop_first());
                        assert(spec_ok_lines(suffix_lines) == seq![t] + rest);
                        assert((seq![t] + rest)[0] == t);
                        assert((seq![t] + rest).drop_first() =~= rest);
                        assert(run(pre, spec_ok_lines(suffix_lines)) == run(engine@, rest));
                    }
                },
                Err(_) => {},
            }
        }
        if nl == input.len() {
            proof {
                assert(spec_ok_lines(Seq::<Seq<u8>>::empty()) =~= Seq::<Transaction>::empty());
            }
            return engine;
        }
        from = nl + 1;
    }
}

} // verus!
