//! The form in which keys and values travel to the remote tier.
//!
//! A key and a value are both written as the decimal digits of the number,
//! in ASCII, without sign, spaces or leading zeros. Nothing else is
//! read back as a number: what decodes is exactly what was encoded.

use crate::storage::RemoteReply;
use vstd::prelude::*;

verus! {

/// The decimal digits of `n`, the most significant first.
pub open spec fn decimal(n: nat) -> Seq<u8>
    decreases n,
{
    if n < 10 {
        seq![(48 + n) as u8]
    } else {
        decimal(n / 10).push((48 + n % 10) as u8)
    }
}

/// Every byte is an ASCII digit.
pub open spec fn all_digits(bytes: Seq<u8>) -> bool {
    forall|i: int| 0 <= i < bytes.len() ==> 48 <= #[trigger] bytes[i] <= 57
}

/// The number that a row of digits denotes.
pub open spec fn denoted(bytes: Seq<u8>) -> nat
    decreases bytes.len(),
{
    if bytes.len() == 0 {
        0
    } else {
        (denoted(bytes.drop_last()) * 10 + (bytes.last() - 48)) as nat
    }
}

/// The bytes are the digits of a number as `decimal` writes them: at least
/// one digit, only digits, and no zero in front of another digit.
pub open spec fn canonical(bytes: Seq<u8>) -> bool {
    &&& bytes.len() > 0
    &&& all_digits(bytes)
    &&& bytes.len() > 1 ==> bytes[0] != 48
}

/// What `decimal` writes is canonical and denotes the number written.
pub proof fn lemma_decimal(n: nat)
    ensures
        canonical(decimal(n)),
        denoted(decimal(n)) == n,
        decimal(n)[0] == 48 ==> n == 0,
    decreases n,
{
    if n < 10 {
        let one = seq![(48 + n) as u8];
        assert(one.drop_last() =~= Seq::<u8>::empty());
        assert(denoted(one.drop_last()) == 0);
    } else {
        lemma_decimal(n / 10);
        let front = decimal(n / 10);
        let all = front.push((48 + n % 10) as u8);
        assert(all.drop_last() =~= front);
        assert(all[0] == front[0]);
    }
}

/// Digits that denote zero are all zeros.
proof fn lemma_zero(bytes: Seq<u8>)
    requires
        all_digits(bytes),
        denoted(bytes) == 0,
    ensures
        forall|i: int| 0 <= i < bytes.len() ==> #[trigger] bytes[i] == 48,
    decreases bytes.len(),
{
    if bytes.len() > 0 {
        let front = bytes.drop_last();
        assert(forall|i: int| 0 <= i < front.len() ==> front[i] == bytes[i]);
        lemma_zero(front);
    }
}

/// Canonical digits are what `decimal` writes for the number they denote.
pub proof fn lemma_canonical(bytes: Seq<u8>)
    requires
        canonical(bytes),
    ensures
        bytes == decimal(denoted(bytes)),
    decreases bytes.len(),
{
    let front = bytes.drop_last();
    let last = bytes.last();
    assert(forall|i: int| 0 <= i < front.len() ==> front[i] == bytes[i]);
    if bytes.len() == 1 {
        assert(front =~= Seq::<u8>::empty());
        assert(denoted(front) == 0);
        assert(bytes =~= seq![last]);
    } else {
        lemma_canonical(front);
        if denoted(front) == 0 {
            lemma_zero(front);
            assert(front[0] == 48);
        }
        let n = denoted(bytes);
        assert(n == denoted(front) * 10 + (last - 48));
        assert(n / 10 == denoted(front));
        assert(n % 10 == last - 48);
        assert(bytes =~= front.push(last));
    }
}

/// A row of digits denotes at least what any of its beginnings denotes.
proof fn lemma_beginning(bytes: Seq<u8>, n: int)
    requires
        all_digits(bytes),
        0 <= n <= bytes.len(),
    ensures
        denoted(bytes.take(n)) <= denoted(bytes),
    decreases bytes.len() - n,
{
    if n == bytes.len() {
        assert(bytes.take(n) =~= bytes);
    } else {
        lemma_beginning(bytes, n + 1);
        let longer = bytes.take(n + 1);
        assert(longer.drop_last() =~= bytes.take(n));
        assert(longer.last() == bytes[n]);
    }
}

/// Two numbers with the same digits are one number.
pub proof fn lemma_decimal_injective(a: nat, b: nat)
    requires
        decimal(a) == decimal(b),
    ensures
        a == b,
{
    lemma_decimal(a);
    lemma_decimal(b);
}

/// Writes `number` in decimal digits.
fn encode(number: u64) -> (bytes: Vec<u8>)
    ensures
        bytes@ == decimal(number as nat),
{
    let mut reversed: Vec<u8> = Vec::new();
    let mut rest: u64 = number;
    assert(decimal(rest as nat) + reversed@.reverse() =~= decimal(rest as nat));
    while rest >= 10
        invariant
            decimal(number as nat) == decimal(rest as nat) + reversed@.reverse(),
        decreases rest,
    {
        let digit: u8 = 48 + (rest % 10) as u8;
        let ghost before = reversed@;
        reversed.push(digit);
        proof {
            assert(reversed@.reverse() =~= seq![digit] + before.reverse());
            assert(decimal(rest as nat) == decimal((rest / 10) as nat).push(digit));
            assert(decimal((rest / 10) as nat).push(digit) + before.reverse() =~= decimal(
                (rest / 10) as nat,
            ) + reversed@.reverse());
        }
        rest = rest / 10;
    }
    let digit: u8 = 48 + rest as u8;
    let ghost before = reversed@;
    reversed.push(digit);
    proof {
        assert(reversed@.reverse() =~= seq![digit] + before.reverse());
        assert(decimal(rest as nat) == seq![digit]);
    }
    assert(decimal(number as nat) == reversed@.reverse());
    let mut bytes: Vec<u8> = Vec::new();
    let mut left: usize = reversed.len();
    while left > 0
        invariant
            left <= reversed.len(),
            bytes@ == reversed@.reverse().take(reversed.len() - left),
        decreases left,
    {
        left -= 1;
        bytes.push(reversed[left]);
        assert(bytes@ =~= reversed@.reverse().take(reversed.len() - left));
    }
    assert(bytes@ =~= reversed@.reverse());
    bytes
}

/// The form of a key on its way to the remote tier.
pub fn encode_key(key: u64) -> (bytes: Vec<u8>)
    ensures
        bytes@ == decimal(key as nat),
{
    encode(key)
}

/// The form of a value on its way to the remote tier.
pub fn encode_value(value: u64) -> (bytes: Vec<u8>)
    ensures
        bytes@ == decimal(value as nat),
{
    encode(value)
}

/// Reads a value back. `Some(value)` is returned exactly for the bytes that
/// `encode_value(value)` writes; any other bytes give `None`.
pub fn decode_value(bytes: &[u8]) -> (value: Option<u64>)
    ensures
        match value {
            Some(value) => bytes@ == decimal(value as nat),
            None => forall|any: u64| bytes@ != #[trigger] decimal(any as nat),
        },
{
    let len: usize = bytes.len();
    if len == 0 || (len > 1 && bytes[0] == 48) {
        proof {
            assert forall|any: u64| bytes@ != #[trigger] decimal(any as nat) by {
                lemma_decimal(any as nat);
            }
        }
        return None;
    }
    let mut number: u64 = 0;
    let mut at: usize = 0;
    while at < len
        invariant
            len == bytes.len(),
            at <= len,
            all_digits(bytes@.take(at as int)),
            number == denoted(bytes@.take(at as int)),
        decreases len - at,
    {
        let byte: u8 = bytes[at];
        let ghost read = bytes@.take(at as int);
        let ghost next = bytes@.take(at + 1);
        proof {
            assert(next.drop_last() =~= read);
            assert(next.last() == byte);
        }
        if byte < 48 || byte > 57 {
            proof {
                assert forall|any: u64| bytes@ != #[trigger] decimal(any as nat) by {
                    lemma_decimal(any as nat);
                }
            }
            return None;
        }
        let digit: u64 = (byte - 48) as u64;
        if number > (u64::MAX - digit) / 10 {
            proof {
                assert(denoted(next) > u64::MAX);
                assert forall|any: u64| bytes@ != #[trigger] decimal(any as nat) by {
                    lemma_decimal(any as nat);
                    if bytes@ == decimal(any as nat) {
                        lemma_beginning(bytes@, at + 1);
                    }
                }
            }
            return None;
        }
        number = number * 10 + digit;
        at += 1;
        proof {
            assert forall|i: int| 0 <= i < next.len() implies 48 <= #[trigger] next[i] <= 57 by {
                if i < at - 1 {
                    assert(next[i] == read[i]);
                }
            }
        }
    }
    proof {
        assert(bytes@.take(len as int) =~= bytes@);
        lemma_canonical(bytes@);
    }
    Some(number)
}

impl RemoteReply {
    /// What the bytes that the remote tier returned for a key mean: nothing
    /// stored is a miss; the bytes of an encoded value are that value; any
    /// other bytes are a failure.
    pub open spec fn read_from(found: Option<Seq<u8>>) -> RemoteReply {
        match found {
            None => RemoteReply::Missing,
            Some(bytes) => if exists|value: u64| bytes == decimal(value as nat) {
                RemoteReply::Found(choose|value: u64| bytes == decimal(value as nat))
            } else {
                RemoteReply::Failed
            },
        }
    }

    /// Reads the remote tier's answer to a read.
    pub fn decoded(found: Option<&[u8]>) -> (reply: RemoteReply)
        ensures
            reply == RemoteReply::read_from(
                match found {
                    Some(bytes) => Some(bytes@),
                    None => None,
                },
            ),
    {
        match found {
            None => RemoteReply::Missing,
            Some(bytes) => match decode_value(bytes) {
                Some(value) => {
                    proof {
                        let chosen = choose|any: u64| bytes@ == decimal(any as nat);
                        lemma_decimal_injective(chosen as nat, value as nat);
                    }
                    RemoteReply::Found(value)
                },
                None => RemoteReply::Failed,
            },
        }
    }
}

/// What was encoded decodes to itself.
pub proof fn lemma_round_trip(value: u64, bytes: Seq<u8>)
    requires
        bytes == decimal(value as nat),
    ensures
        RemoteReply::read_from(Some(bytes)) == RemoteReply::Found(value),
{
    let chosen = choose|any: u64| bytes == decimal(any as nat);
    lemma_decimal_injective(chosen as nat, value as nat);
}

} // verus!
