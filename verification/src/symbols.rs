//! Symbols as a configuration writes them.
use vstd::prelude::*;
use vstd::string::*;
use vstd::utf8::*;

use crate::text;
use crate::types;
use crate::types::{Symbol, SymbolView, Venue};

verus! {

/// The quote currencies that are known, in the order in which they are tried.
pub open spec fn known_quotes() -> Seq<Seq<char>> {
    seq![
        "USDT"@,
        "USDC"@,
        "BUSD"@,
        "FDUSD"@,
        "BTC"@,
        "ETH"@,
        "EUR"@,
        "USD"@,
        "TRY"@,
        "BNB"@,
        "JPY"@,
    ]
}

/// Whether a symbol ends in a quote currency with something before it.
pub open spec fn ends_in(symbol: Seq<char>, quote: Seq<char>) -> bool {
    text::has_suffix(symbol, quote) && symbol.len() > quote.len()
}

/// The first known quote currency, from place `i` on, that a symbol ends in.
pub open spec fn quote_from(symbol: Seq<char>, i: int) -> Option<Seq<char>>
    decreases known_quotes().len() - i,
{
    if i < 0 || i >= known_quotes().len() {
        None
    } else if ends_in(symbol, known_quotes()[i]) {
        Some(known_quotes()[i])
    } else {
        quote_from(symbol, i + 1)
    }
}

/// Whether a symbol in upper case is made of a base and a quote currency. One that ends in no
/// known quote currency has its last four bytes as quote currency, or its last three where it
/// has four; a shorter one is all base, quoted in `USDT`.
pub open spec fn is_split(symbol: Seq<char>, base: Seq<char>, quote: Seq<char>) -> bool {
    let n = encode_utf8(symbol).len();
    match quote_from(symbol, 0) {
        Some(q) => quote == q && base + q == symbol,
        None => if n > 4 {
            base + quote == symbol && encode_utf8(quote).len() == 4
        } else if n > 3 {
            base + quote == symbol && encode_utf8(quote).len() == 3
        } else {
            base == symbol && quote == "USDT"@
        },
    }
}

/// A symbol is made of a base and a quote currency in one way at most.
pub proof fn splits_are_unique(
    symbol: Seq<char>,
    base: Seq<char>,
    quote: Seq<char>,
    other_base: Seq<char>,
    other_quote: Seq<char>,
)
    requires
        is_split(symbol, base, quote),
        is_split(symbol, other_base, other_quote),
    ensures
        base == other_base,
        quote == other_quote,
{
    if quote_from(symbol, 0) is Some || encode_utf8(symbol).len() > 3 {
        text::lemma_split_unique(base, quote, other_base, other_quote);
    }
}

/// The known quote currencies.
fn quotes() -> (r: Vec<&'static str>)
    ensures
        r.deep_view() == known_quotes(),
{
    let mut out: Vec<&'static str> = Vec::new();
    out.push("USDT");
    out.push("USDC");
    out.push("BUSD");
    out.push("FDUSD");
    out.push("BTC");
    out.push("ETH");
    out.push("EUR");
    out.push("USD");
    out.push("TRY");
    out.push("BNB");
    out.push("JPY");
    assert(out.deep_view() =~= known_quotes());
    out
}

/// The base and the quote currency of a symbol in upper case; none where its last bytes are not
/// characters of their own.
pub fn split_pair(symbol: &str) -> (r: Option<(String, String)>)
    ensures
        match r {
            Some((base, quote)) => is_split(symbol@, base@, quote@),
            None => forall|base: Seq<char>, quote: Seq<char>| !is_split(symbol@, base, quote),
        },
{
    let known = quotes();
    let mut i: usize = 0;
    while i < known.len()
        invariant
            i <= known@.len(),
            known.deep_view() == known_quotes(),
            quote_from(symbol@, 0) == quote_from(symbol@, i as int),
        decreases known.len() - i,
    {
        assert(known_quotes()[i as int] == known@[i as int]@);
        let quote: &'static str = known[i];
        if let Some(base) = text::strip_suffix(symbol, quote) {
            let has_base = base.as_str().unicode_len() > 0;
            if has_base {
                assert(symbol@ =~= base@ + quote@);
                return Some((base, quote.to_owned()));
            }
        }
        i += 1;
    }
    let n: usize = symbol.as_bytes().len();
    if n > 3 {
        let width: usize = if n > 4 {
            4
        } else {
            3
        };
        let parts = text::split_tail(symbol, width);
        if parts.is_none() {
            assert forall|base: Seq<char>, quote: Seq<char>| !is_split(symbol@, base, quote) by {
                if is_split(symbol@, base, quote) {
                    let k = base.len() as int;
                    assert(symbol@.skip(k) =~= quote);
                    assert(text::tail_bytes(symbol@, k) == width);
                }
            }
        }
        parts
    } else {
        Some((symbol.to_owned(), "USDT".to_owned()))
    }
}

/// The symbol that a configuration's text stands for, at a venue; none where its last bytes are
/// not characters of their own.
pub fn parse_venue_symbol(raw: &str, venue: Venue) -> (r: Option<Symbol>)
    ensures
        match r {
            Some(symbol) => exists|base: Seq<char>, quote: Seq<char>| #[trigger]
                is_split(types::uppercase(raw@), base, quote) && symbol@ == (SymbolView {
                    base: types::uppercase(base),
                    quote: types::uppercase(quote),
                    venue,
                }),
            None => forall|base: Seq<char>, quote: Seq<char>|
                !is_split(types::uppercase(raw@), base, quote),
        },
{
    let upper = types::to_upper(raw);
    match split_pair(upper.as_str()) {
        Some((base, quote)) => {
            assert(is_split(types::uppercase(raw@), base@, quote@));
            Some(Symbol::new(base.as_str(), quote.as_str(), venue))
        },
        None => None,
    }
}

/// Whether a feed's symbol is made of a base and a quote currency: its last four bytes are the
/// quote currency, all of it where it has no more.
pub open spec fn is_feed_split(symbol: Seq<char>, base: Seq<char>, quote: Seq<char>) -> bool {
    base + quote == symbol && encode_utf8(quote).len() == (if encode_utf8(symbol).len() < 4 {
        encode_utf8(symbol).len() as int
    } else {
        4
    })
}

/// The base and the quote currency of a feed's symbol; none where its last bytes are not
/// characters of their own.
pub fn split_feed_symbol(symbol: &str) -> (r: Option<(String, String)>)
    ensures
        match r {
            Some((base, quote)) => is_feed_split(symbol@, base@, quote@),
            None => forall|base: Seq<char>, quote: Seq<char>|
                !is_feed_split(symbol@, base, quote),
        },
{
    let n: usize = symbol.as_bytes().len();
    let width: usize = if n < 4 {
        n
    } else {
        4
    };
    let parts = text::split_tail(symbol, width);
    if parts.is_none() {
        assert forall|base: Seq<char>, quote: Seq<char>|
            !is_feed_split(symbol@, base, quote) by {
            if is_feed_split(symbol@, base, quote) {
                let k = base.len() as int;
                assert(symbol@.skip(k) =~= quote);
                assert(text::tail_bytes(symbol@, k) == width);
            }
        }
    }
    parts
}

/// The identifier of the strategy for a symbol at a venue.
pub fn strategy_id(venue: Venue, symbol: &str) -> (r: String)
    ensures
        r@ == "mm_"@ + venue.name() + "_"@ + symbol@,
{
    let mut out = "mm_".to_owned();
    out.append(venue.as_str());
    out.append("_");
    out.append(symbol);
    out
}

/// Where a symbol ends in a known quote behind something else, it is split before one: before the
/// longest, where several fit.
pub proof fn longest_known_quote_wins(
    symbol: Seq<char>,
    base: Seq<char>,
    quote: Seq<char>,
    known: Seq<char>,
)
    requires
        is_split(symbol, base, quote),
        known == "USDT"@ || known == "USDC"@ || known == "BUSD"@ || known == "FDUSD"@ || known
            == "BTC"@ || known == "ETH"@ || known == "EUR"@ || known == "USD"@ || known == "TRY"@
            || known == "BNB"@ || known == "JPY"@,
        text::has_suffix(symbol, known),
        symbol.len() > known.len(),
    ensures
        base + quote == symbol,
        base.len() > 0,
        quote.len() >= known.len(),
        known.len() >= 4 ==> quote == known,
{
    reveal_with_fuel(quote_from, 12);
    reveal_strlit("USDT");
    reveal_strlit("USDC");
    reveal_strlit("BUSD");
    reveal_strlit("FDUSD");
    reveal_strlit("BTC");
    reveal_strlit("ETH");
    reveal_strlit("EUR");
    reveal_strlit("USD");
    reveal_strlit("TRY");
    reveal_strlit("BNB");
    reveal_strlit("JPY");
    let n = symbol.len();
    assert(known_quotes().len() == 11);
    assert(known_quotes()[0] == "USDT"@ && "USDT"@ =~= seq!['U', 'S', 'D', 'T']);
    assert(known_quotes()[1] == "USDC"@ && "USDC"@ =~= seq!['U', 'S', 'D', 'C']);
    assert(known_quotes()[2] == "BUSD"@ && "BUSD"@ =~= seq!['B', 'U', 'S', 'D']);
    assert(known_quotes()[3] == "FDUSD"@ && "FDUSD"@ =~= seq!['F', 'D', 'U', 'S', 'D']);
    assert(known_quotes()[4] == "BTC"@ && "BTC"@ =~= seq!['B', 'T', 'C']);
    assert(known_quotes()[5] == "ETH"@ && "ETH"@ =~= seq!['E', 'T', 'H']);
    assert(known_quotes()[6] == "EUR"@ && "EUR"@ =~= seq!['E', 'U', 'R']);
    assert(known_quotes()[7] == "USD"@ && "USD"@ =~= seq!['U', 'S', 'D']);
    assert(known_quotes()[8] == "TRY"@ && "TRY"@ =~= seq!['T', 'R', 'Y']);
    assert(known_quotes()[9] == "BNB"@ && "BNB"@ =~= seq!['B', 'N', 'B']);
    assert(known_quotes()[10] == "JPY"@ && "JPY"@ =~= seq!['J', 'P', 'Y']);
    assert(quote_from(symbol, 0) is Some);
    assert(ends_in(symbol, quote));
    assert(base.len() + quote.len() == n);
    lemma_tail(symbol, known);
    lemma_tail(symbol, quote);
    assert(known[known.len() - 1] == symbol[n - 1] && quote[quote.len() - 1] == symbol[n - 1]);
    assert(known[known.len() - 2] == symbol[n - 2] && quote[quote.len() - 2] == symbol[n - 2]);
    if known.len() >= 4 {
        assert(known[known.len() - 4] == symbol[n - 4]);
        assert(ends_in(symbol, known));
        if quote.len() >= 4 {
            assert(quote[quote.len() - 4] == symbol[n - 4]);
        }
    }
}

/// The last characters of a text are those of what it ends in.
proof fn lemma_tail(s: Seq<char>, suffix: Seq<char>)
    requires
        text::has_suffix(s, suffix),
    ensures
        forall|i: int|
            0 <= i < suffix.len() ==> #[trigger] suffix[i] == s[s.len() - suffix.len() + i],
{
    assert forall|i: int| 0 <= i < suffix.len() implies #[trigger] suffix[i] == s[s.len()
        - suffix.len() + i] by {
        assert(s.skip(s.len() - suffix.len())[i] == suffix[i]);
    }
}

} // verus!
