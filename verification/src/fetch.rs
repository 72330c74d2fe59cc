//! Fetch results and the price parser.
//!
//! The page fetcher itself is an outside collaborator: it hands the library
//! either a `Product` snapshot or a `FetchError`. The one piece of fetch
//! logic the library owns is reading a price out of the text scraped from a
//! page: the digits of the text, skipping currency marks and thousands
//! separators, read as one decimal number.

use vstd::prelude::*;
use vstd::string::StrSliceExecFns;

verus! {

/// One observed snapshot of a product page.
pub struct Product {
    pub name: String,
    pub price: i32,
    pub url: String,
}

/// Why one product's check failed this round. The sweep treats every kind
/// the same way: that product is counted as failed and the sweep goes on.
#[derive(Clone, Copy, PartialEq, Eq, Structural, Debug)]
pub enum FetchError {
    /// The page could not be retrieved.
    Unreachable,
    /// The page held no product title.
    TitleNotFound,
    /// The page held no price element.
    PriceNotFound,
    /// The price text held no usable number.
    PriceUnparseable,
}

/// A decimal digit.
pub open spec fn is_price_digit(c: char) -> bool {
    ('0' as int) <= (c as int) && (c as int) <= ('9' as int)
}

/// The decimal digits of a text, in order, everything else skipped.
pub open spec fn digits_of(s: Seq<char>) -> Seq<char>
    decreases s.len(),
{
    if s.len() == 0 {
        Seq::empty()
    } else if is_price_digit(s.last()) {
        digits_of(s.drop_last()) + seq![s.last()]
    } else {
        digits_of(s.drop_last())
    }
}

/// The number a run of decimal digits denotes.
pub open spec fn dec_value(ds: Seq<char>) -> int
    decreases ds.len(),
{
    if ds.len() == 0 {
        0
    } else {
        dec_value(ds.drop_last()) * 10 + (ds.last() as int - '0' as int)
    }
}

/// Read a price from scraped text: the digits scattered in it, read as one
/// whole-unit decimal number, so currency marks and thousands separators do
/// not matter. Fails exactly when the text holds no digit at all or the
/// number outgrows `i32`.
pub fn parse_price(text: &str) -> (r: Result<i32, FetchError>)
    ensures
        ({
            let ds = digits_of(text@);
            match r {
                Ok(v) => ds.len() > 0 && 0 <= dec_value(ds) <= i32::MAX && v == dec_value(ds),
                Err(e) => e == FetchError::PriceUnparseable && (ds.len() == 0 || dec_value(ds)
                    > i32::MAX),
            }
        }),
{
    let ghost s = text@;
    let n = text.unicode_len();
    let mut i: usize = 0;
    let mut acc: i64 = 0;
    let mut ndigits: usize = 0;
    let mut over = false;
    proof {
        assert(s.take(0) =~= Seq::<char>::empty());
    }
    while i < n
        invariant
            i <= n,
            n == s.len(),
            s == text@,
            ndigits <= i,
            ndigits == digits_of(s.take(i as int)).len(),
            !over ==> acc == dec_value(digits_of(s.take(i as int))) && 0 <= acc <= i32::MAX,
            over ==> dec_value(digits_of(s.take(i as int))) > i32::MAX,
        decreases n - i,
    {
        let c = text.get_char(i);
        let ghost ds = digits_of(s.take(i as int));
        let ghost ds2 = digits_of(s.take(i as int + 1));
        proof {
            assert(s.take(i as int + 1).drop_last() =~= s.take(i as int));
            assert(s.take(i as int + 1).last() == s[i as int]);
        }
        let v = c as u32;
        if ('0' as u32) <= v && v <= ('9' as u32) {
            proof {
                assert(is_price_digit(c));
                assert(ds2 == ds + seq![c]);
                assert(ds2.drop_last() =~= ds);
                assert(ds2.last() == c);
                assert(dec_value(ds2) == dec_value(ds) * 10 + (c as int - '0' as int));
            }
            let d = (v - ('0' as u32)) as i64;
            if !over {
                let acc2 = acc * 10 + d;
                if acc2 > i32::MAX as i64 {
                    over = true;
                } else {
                    acc = acc2;
                }
            }
            ndigits = ndigits + 1;
        } else {
            proof {
                assert(!is_price_digit(c));
                assert(ds2 == ds);
            }
        }
        i = i + 1;
    }
    proof {
        assert(s.take(n as int) =~= s);
    }
    if ndigits == 0 {
        Err(FetchError::PriceUnparseable)
    } else if over {
        Err(FetchError::PriceUnparseable)
    } else {
        Ok(acc as i32)
    }
}

} // verus!
