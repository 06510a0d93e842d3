//! Trading pairs and the names by which markets are addressed.
//!
//! A market is named by the codes of its two currencies with an underscore
//! between them, as in `USD_GBP`. Codes are read without regard to case.

use vstd::prelude::*;
use vstd::string::StringSliceAdditionalSpecFns;

verus! {

/// The currencies that can be traded.
#[derive(Clone, Copy, Debug, PartialEq, Eq, Structural, PartialOrd, Ord)]
pub enum Currency {
    EUR,
    GBP,
    JPY,
    USD,
}

/// Two currencies that are traded against each other.
#[derive(Clone, Copy, Debug, PartialEq, Eq, Structural, PartialOrd, Ord)]
pub struct TradingPair {
    pub bid: Currency,
    pub ask: Currency,
}

/// The error of a name that is not one of a trading pair.
#[derive(Clone, Copy, Debug, PartialEq, Eq, Structural)]
pub struct BadTradingPairError;

/// The byte that parts the two codes of a name.
pub const SEPARATOR: u8 = 0x5f;

/// A byte with an upper-case letter of ASCII turned into its lower-case
/// letter.
pub open spec fn spec_fold(b: u8) -> u8 {
    if 0x41 <= b <= 0x5a {
        (b + 0x20) as u8
    } else {
        b
    }
}

#[verifier::when_used_as_spec(spec_fold)]
pub fn fold(b: u8) -> (r: u8)
    ensures
        r == spec_fold(b),
{
    if 0x41 <= b && b <= 0x5a {
        b + 0x20
    } else {
        b
    }
}

/// Whether `bytes` are the three letters `a`, `b`, `c`, in either case.
pub open spec fn spells(bytes: Seq<u8>, a: u8, b: u8, c: u8) -> bool {
    &&& bytes.len() == 3
    &&& fold(bytes[0]) == a
    &&& fold(bytes[1]) == b
    &&& fold(bytes[2]) == c
}

/// The currency that `bytes` are the code of, if they are one.
pub open spec fn currency_of(bytes: Seq<u8>) -> Option<Currency> {
    if spells(bytes, 0x65, 0x75, 0x72) {
        Some(Currency::EUR)
    } else if spells(bytes, 0x67, 0x62, 0x70) {
        Some(Currency::GBP)
    } else if spells(bytes, 0x6a, 0x70, 0x79) {
        Some(Currency::JPY)
    } else if spells(bytes, 0x75, 0x73, 0x64) {
        Some(Currency::USD)
    } else {
        None
    }
}

/// The index of the first separator in `bytes`, or their length where there
/// is none.
pub open spec fn first_separator(bytes: Seq<u8>) -> int
    decreases bytes.len(),
{
    if bytes.len() == 0 {
        0
    } else if bytes.first() == SEPARATOR {
        0
    } else {
        1 + first_separator(bytes.drop_first())
    }
}

/// The trading pair that `bytes` name, if they name one: a code, the first
/// separator, and a code.
pub open spec fn pair_of(bytes: Seq<u8>) -> Option<TradingPair> {
    let at = first_separator(bytes);
    if at >= bytes.len() {
        None
    } else {
        match (currency_of(bytes.take(at)), currency_of(bytes.skip(at + 1))) {
            (Some(bid), Some(ask)) => Some(TradingPair { bid, ask }),
            _ => None,
        }
    }
}

/// The currency whose code stands in `bytes` from `lo` up to `hi`.
fn currency_in(bytes: &[u8], lo: usize, hi: usize) -> (r: Option<Currency>)
    requires
        lo <= hi <= bytes@.len(),
    ensures
        r == currency_of(bytes@.subrange(lo as int, hi as int)),
{
    if hi - lo != 3 {
        return None;
    }
    let ghost code = bytes@.subrange(lo as int, hi as int);
    assert(code[0] == bytes@[lo as int] && code[1] == bytes@[lo + 1] && code[2] == bytes@[lo + 2]);
    let a = fold(bytes[lo]);
    let b = fold(bytes[lo + 1]);
    let c = fold(bytes[lo + 2]);
    if a == 0x65 && b == 0x75 && c == 0x72 {
        Some(Currency::EUR)
    } else if a == 0x67 && b == 0x62 && c == 0x70 {
        Some(Currency::GBP)
    } else if a == 0x6a && b == 0x70 && c == 0x79 {
        Some(Currency::JPY)
    } else if a == 0x75 && b == 0x73 && c == 0x64 {
        Some(Currency::USD)
    } else {
        None
    }
}

impl TradingPair {
    pub fn new(bid: Currency, ask: Currency) -> (pair: TradingPair)
        ensures
            pair == (TradingPair { bid, ask }),
    {
        TradingPair { bid, ask }
    }

    /// Reads the name of a trading pair.
    pub fn parse(name: &str) -> (r: Option<TradingPair>)
        ensures
            r == pair_of(name.spec_bytes()),
    {
        let bytes = name.as_bytes();
        let n = bytes.len();
        let mut at: usize = 0;
        proof {
            assert(bytes@.skip(0) =~= bytes@);
        }
        while at < n && bytes[at] != SEPARATOR
            invariant
                at <= n,
                n == bytes@.len(),
                first_separator(bytes@) == at + first_separator(bytes@.skip(at as int)),
            decreases n - at,
        {
            proof {
                assert(bytes@.skip(at as int).first() == bytes@[at as int]);
                assert(bytes@.skip(at as int).drop_first() =~= bytes@.skip(at + 1));
            }
            at += 1;
        }
        proof {
            if at < n {
                assert(bytes@.skip(at as int).first() == bytes@[at as int]);
            } else {
                assert(bytes@.skip(at as int).len() == 0);
            }
        }
        if at >= n {
            return None;
        }
        proof {
            assert(bytes@.take(at as int) =~= bytes@.subrange(0, at as int));
            assert(bytes@.skip(at + 1) =~= bytes@.subrange(at + 1, n as int));
        }
        let bid = currency_in(bytes, 0, at);
        let ask = currency_in(bytes, at + 1, n);
        match (bid, ask) {
            (Some(bid), Some(ask)) => Some(TradingPair { bid, ask }),
            _ => None,
        }
    }
}

impl core::str::FromStr for TradingPair {
    type Err = BadTradingPairError;

    /// Reads the name of a trading pair, as [`TradingPair::parse`] does.
    fn from_str(s: &str) -> (r: Result<TradingPair, BadTradingPairError>)
        ensures
            r == match pair_of(s.spec_bytes()) {
                Some(pair) => Ok::<TradingPair, BadTradingPairError>(pair),
                None => Err(BadTradingPairError),
            },
    {
        match TradingPair::parse(s) {
            Some(pair) => Ok(pair),
            None => Err(BadTradingPairError),
        }
    }
}

} // verus!
