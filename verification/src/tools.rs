//! What the command-line tools decide and compute on entries: the time of
//! an entry, the order in which journals are merged, and the name under
//! which an entry is stored.

use crate::fieldname::ascii;
use crate::fieldname::same_bytes;
use crate::fieldname::Known;
use crate::journald::parser::RefEntry;
use crate::journald::wire::is_digit;
use crate::journald::wire::Item;
use crate::journald::Entry;
use sha2::Digest;
use vstd::prelude::*;
use vstd::string::StringExecFns;

verus! {

/// The sign that may stand before a number.
pub const PLUS: u8 = 43;

/// The time that stands for "none": an entry without a time comes last.
pub const NO_TIME: u64 = u64::MAX;

/// The number that a string of decimal digits stands for.
pub open spec fn digits_value(s: Seq<u8>) -> nat
    decreases s.len(),
{
    if s.len() == 0 {
        0
    } else {
        digits_value(s.drop_last()) * 10 + (s.last() - 48) as nat
    }
}

pub open spec fn all_digits(s: Seq<u8>) -> bool {
    forall|i: int| 0 <= i < s.len() ==> is_digit(#[trigger] s[i])
}

/// The number that the bytes spell in decimal: an optional `+`, then one
/// digit or more, and a value that fits 64 bits.
pub open spec fn number(s: Seq<u8>) -> Option<u64> {
    let digits = if s.len() > 0 && s[0] == PLUS {
        s.drop_first()
    } else {
        s
    };
    if digits.len() > 0 && all_digits(digits) && digits_value(digits) <= u64::MAX {
        Some(digits_value(digits) as u64)
    } else {
        None
    }
}

/// More digits do not make a number smaller.
proof fn lemma_digits_grow(s: Seq<u8>, i: int)
    requires
        all_digits(s),
        0 <= i <= s.len(),
    ensures
        digits_value(s.subrange(0, i)) <= digits_value(s),
    decreases s.len() - i,
{
    if i == s.len() {
        assert(s.subrange(0, i) =~= s);
    } else {
        lemma_digits_grow(s, i + 1);
        let longer = s.subrange(0, i + 1);
        assert(longer.drop_last() =~= s.subrange(0, i));
        assert(is_digit(s[i]));
        assert(longer.last() == s[i]);
    }
}

/// Reads a number as `number` says.
pub fn parse_number(s: &[u8]) -> (r: Option<u64>)
    ensures
        r == number(s@),
{
    let start: usize = if s.len() > 0 && s[0] == PLUS {
        1
    } else {
        0
    };
    let ghost digits = if start == 1 {
        s@.drop_first()
    } else {
        s@
    };
    if start == s.len() {
        return None;
    }
    assert(digits =~= s@.subrange(start as int, s@.len() as int));
    let mut acc: u64 = 0;
    let mut i: usize = start;
    while i < s.len()
        invariant
            start <= i <= s@.len(),
            digits == s@.subrange(start as int, s@.len() as int),
            digits == if s@.len() > 0 && s@[0] == PLUS {
                s@.drop_first()
            } else {
                s@
            },
            all_digits(digits.subrange(0, i - start)),
            acc == digits_value(digits.subrange(0, i - start)),
        decreases s@.len() - i,
    {
        let c: u8 = s[i];
        if c < 48 || c > 57 {
            assert(!is_digit(digits[i - start]));
            return None;
        }
        let ghost before = digits.subrange(0, i - start);
        let ghost after = digits.subrange(0, i - start + 1);
        proof {
            assert(after.drop_last() =~= before);
            assert(after.last() == c);
            assert forall|j: int| 0 <= j < after.len() implies is_digit(#[trigger] after[j]) by {
                if j < before.len() {
                    assert(before[j] == after[j]);
                }
            }
        }
        let wide: u128 = acc as u128 * 10 + (c - 48) as u128;
        if wide > u64::MAX as u128 {
            proof {
                if all_digits(digits) {
                    lemma_digits_grow(digits, i - start + 1);
                }
            }
            return None;
        }
        acc = wide as u64;
        i = i + 1;
    }
    assert(digits.subrange(0, i - start) =~= digits);
    Some(acc)
}

/// The time of an entry with these fields: what the first field with the
/// name `__REALTIME_TIMESTAMP` holds, if that is a number, and `NO_TIME`
/// where there is no such field or no number in it.
pub open spec fn time_stamp(items: Seq<Item>) -> u64
    decreases items.len(),
{
    if items.len() == 0 {
        NO_TIME
    } else if items[0].0 == ascii(Known::__RealtimeTimestamp.name()) {
        match number(items[0].1) {
            Some(t) => t,
            None => NO_TIME,
        }
    } else {
        time_stamp(items.drop_first())
    }
}

/// The time at which an entry was received, as the entry itself states it.
pub fn get_time_stamp(entry: RefEntry<'_>) -> (r: u64)
    requires
        entry.wf(),
    ensures
        r == time_stamp(entry.entry().items()),
{
    let mut fields = entry.iter();
    loop
        invariant
            fields.wf(),
            time_stamp(fields.rest()) == time_stamp(entry.entry().items()),
        decreases fields.rest().len(),
    {
        match fields.next() {
            Some((name, content, _)) => {
                if same_bytes(name, Known::__RealtimeTimestamp.as_bytes()) {
                    return match parse_number(content) {
                        Some(t) => t,
                        None => NO_TIME,
                    };
                }
            },
            None => {
                return NO_TIME;
            },
        }
    }
}

/// The times from which on an entry is taken last: nothing is earlier
/// than an entry whose time is below this.
pub const LATEST: u64 = u64::MAX - 1;

/// `at` is the place of the journal to take the next entry from: the
/// first of those whose entry is the earliest, or the first journal of all
/// where no entry has a time below `LATEST`.
pub open spec fn is_next(stamps: Seq<u64>, at: int) -> bool {
    if exists|i: int| 0 <= i < stamps.len() && stamps[i] < LATEST {
        &&& 0 <= at < stamps.len()
        &&& stamps[at] < LATEST
        &&& forall|i: int| 0 <= i < stamps.len() ==> stamps[at] <= #[trigger] stamps[i]
        &&& forall|i: int| 0 <= i < at ==> stamps[at] < #[trigger] stamps[i]
    } else {
        at == 0
    }
}

/// Of the journals that are merged, the one to take the next entry from,
/// given the time of the entry at hand in each.
pub fn next_to_merge(stamps: &[u64]) -> (r: usize)
    ensures
        is_next(stamps@, r as int),
{
    let mut min_idx: usize = 0;
    let mut min_val: u64 = LATEST;
    let mut idx: usize = 0;
    while idx < stamps.len()
        invariant
            idx <= stamps@.len(),
            min_val <= LATEST,
            forall|i: int| 0 <= i < idx ==> min_val <= #[trigger] stamps@[i],
            if min_val == LATEST {
                min_idx == 0
            } else {
                &&& min_idx < idx
                &&& stamps@[min_idx as int] == min_val
                &&& forall|i: int| 0 <= i < min_idx ==> min_val < #[trigger] stamps@[i]
            },
        decreases stamps@.len() - idx,
    {
        let val: u64 = stamps[idx];
        if val < min_val {
            min_val = val;
            min_idx = idx;
        }
        idx = idx + 1;
    }
    min_idx
}

/// The SHA-256 digest of some bytes.
pub uninterp spec fn sha256_digest(data: Seq<u8>) -> Seq<u8>;

/// `Sha256::digest` of sha2, the digest of a message that is at hand as a
/// whole. Claimed of it: the 32 bytes that come back are the digest, a
/// function of the message alone.
#[verifier::external_body]
fn sha256(data: &[u8]) -> (r: [u8; 32])
    ensures
        r@ == sha256_digest(data@),
{
    sha2::Sha256::digest(data).into()
}

/// The digit that stands for a number below sixteen.
pub open spec fn hex_digit(n: u8) -> char {
    if n < 10 {
        (48 + n) as char
    } else {
        (87 + n) as char
    }
}

/// The bytes in hexadecimal: two digits for each byte, the high one
/// first, letters in lower case.
pub open spec fn hex(bytes: Seq<u8>) -> Seq<char> {
    Seq::new(
        2 * bytes.len(),
        |i: int|
            if i % 2 == 0 {
                hex_digit(bytes[i / 2] / 16)
            } else {
                hex_digit(bytes[i / 2] % 16)
            },
    )
}

/// The digit for a number below sixteen, as a string of its own.
fn digit(n: u8) -> (r: &'static str)
    requires
        n < 16,
    ensures
        r@ == seq![hex_digit(n)],
{
    proof {
        reveal_strlit("0");
        reveal_strlit("1");
        reveal_strlit("2");
        reveal_strlit("3");
        reveal_strlit("4");
        reveal_strlit("5");
        reveal_strlit("6");
        reveal_strlit("7");
        reveal_strlit("8");
        reveal_strlit("9");
        reveal_strlit("a");
        reveal_strlit("b");
        reveal_strlit("c");
        reveal_strlit("d");
        reveal_strlit("e");
        reveal_strlit("f");
    }
    let r = match n {
        0 => "0",
        1 => "1",
        2 => "2",
        3 => "3",
        4 => "4",
        5 => "5",
        6 => "6",
        7 => "7",
        8 => "8",
        9 => "9",
        10 => "a",
        11 => "b",
        12 => "c",
        13 => "d",
        14 => "e",
        _ => "f",
    };
    assert(r@ =~= seq![hex_digit(n)]);
    r
}

/// Writes bytes in hexadecimal.
pub fn to_hex(bytes: &[u8]) -> (r: String)
    ensures
        r@ == hex(bytes@),
{
    let mut out = String::new();
    let mut i: usize = 0;
    while i < bytes.len()
        invariant
            i <= bytes@.len(),
            out@ == hex(bytes@.subrange(0, i as int)),
        decreases bytes@.len() - i,
    {
        let b: u8 = bytes[i];
        let ghost before = out@;
        out.append(digit(b / 16));
        out.append(digit(b % 16));
        i = i + 1;
        proof {
            let now = bytes@.subrange(0, i as int);
            let was = bytes@.subrange(0, i - 1);
            assert(out@ =~= hex(now)) by {
                assert(out@.len() == 2 * i);
                assert forall|j: int| 0 <= j < 2 * i implies out@[j] == hex(now)[j] by {
                    if j < 2 * (i - 1) {
                        assert(out@[j] == hex(was)[j]);
                        assert(was[j / 2] == now[j / 2]);
                    }
                }
            }
        }
    }
    assert(bytes@.subrange(0, i as int) =~= bytes@);
    out
}

/// The name under which an entry with these bytes is stored: its SHA-256
/// digest in hexadecimal.
pub fn digest_name(bytes: &[u8]) -> (r: String)
    ensures
        r@ == hex(sha256_digest(bytes@)),
{
    let digest = sha256(bytes);
    to_hex(digest.as_slice())
}

} // verus!
