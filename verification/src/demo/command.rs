//! The commands of the interactive session, parsed from the words of an
//! input line.
use vstd::prelude::*;
use vstd::string::*;

use crate::types::order::{OrderSide, TimeInForce};

verus! {

/// The lowercase form of a text, as `str::to_lowercase` gives it.
pub uninterp spec fn lowercase(s: Seq<char>) -> Seq<char>;

/// `true` when every character of the text is ASCII.
pub open spec fn is_ascii_text(s: Seq<char>) -> bool {
    forall|i: int| 0 <= i < s.len() ==> (#[trigger] s[i] as int) < 128
}

/// The ASCII lowercase of a character: `A`-`Z` become `a`-`z`, the rest stays.
pub open spec fn ascii_lower(c: char) -> char {
    if 'A' <= c <= 'Z' {
        ((c as int) + 32) as char
    } else {
        c
    }
}

/// Calls `str::to_lowercase`. Claimed: the result is a function of the text
/// alone, named `lowercase`, and on ASCII text it turns `A`-`Z` into `a`-`z`
/// and keeps every other character, as the documentation's examples show;
/// what the Unicode case mapping gives beyond ASCII is not stated.
#[verifier::external_body]
fn to_lowercase(s: &str) -> (r: String)
    ensures
        r@ == lowercase(s@),
        is_ascii_text(s@) ==> r@ == Seq::new(s@.len(), |i: int| ascii_lower(s@[i])),
{
    s.to_lowercase()
}

/// Returns `true` when two texts are the same characters.
pub fn same_text(a: &str, b: &str) -> (r: bool)
    ensures
        r == (a@ == b@),
{
    let n = a.unicode_len();
    if n != b.unicode_len() {
        return false;
    }
    let mut i: usize = 0;
    while i < n
        invariant
            0 <= i <= n,
            n == a@.len(),
            n == b@.len(),
            forall|j: int| 0 <= j < i ==> a@[j] == b@[j],
        decreases n - i,
    {
        if a.get_char(i) != b.get_char(i) {
            return false;
        }
        i = i + 1;
    }
    assert(a@ =~= b@);
    true
}

/// The value of a string of decimal digits.
pub open spec fn digits_value(s: Seq<char>) -> int
    decreases s.len(),
{
    if s.len() == 0 {
        0
    } else {
        digits_value(s.drop_last()) * 10 + (s.last() as int - 48)
    }
}

/// Every character is a decimal digit.
pub open spec fn all_digits(s: Seq<char>) -> bool {
    forall|i: int| 0 <= i < s.len() ==> '0' <= #[trigger] s[i] <= '9'
}

/// The unsigned integer a text spells, as unsigned integer parsing reads
/// it: an optional `+`, then one or more decimal digits. `None` otherwise.
pub open spec fn unsigned_value(s: Seq<char>) -> Option<int> {
    let body = if s.len() > 0 && s[0] == '+' { s.drop_first() } else { s };
    if body.len() == 0 || !all_digits(body) {
        None
    } else {
        Some(digits_value(body))
    }
}

/// The number a text spells when it is at most `max`.
pub open spec fn bounded_value(s: Seq<char>, max: int) -> Option<int> {
    match unsigned_value(s) {
        Some(v) => if v <= max { Some(v) } else { None },
        None => None,
    }
}

/// Digit values never decrease as digits are appended.
proof fn lemma_digits_prefix(s: Seq<char>, k: int)
    requires
        0 <= k <= s.len(),
        all_digits(s),
    ensures
        digits_value(s.take(k)) <= digits_value(s),
        digits_value(s.take(k)) >= 0,
    decreases s.len() - k,
{
    if k == s.len() {
        assert(s.take(k) =~= s);
        lemma_digits_nonneg(s);
    } else {
        lemma_digits_prefix(s, k + 1);
        assert(s.take(k + 1).drop_last() =~= s.take(k));
        lemma_digits_nonneg(s.take(k));
        assert(all_digits(s.take(k + 1)));
    }
}

proof fn lemma_digits_nonneg(s: Seq<char>)
    requires
        all_digits(s),
    ensures
        digits_value(s) >= 0,
    decreases s.len(),
{
    if s.len() > 0 {
        assert(all_digits(s.drop_last()));
        lemma_digits_nonneg(s.drop_last());
    }
}

/// Parses an unsigned integer of at most `max`: an optional `+` and one or
/// more decimal digits.
#[verifier::rlimit(30)]
pub fn parse_bounded(s: &str, max: u64) -> (r: Option<u64>)
    ensures
        r matches Some(v) ==> bounded_value(s@, max as int) == Some(v as int),
        r is None ==> bounded_value(s@, max as int) is None,
{
    let n = s.unicode_len();
    let mut start: usize = 0;
    if n > 0 && s.get_char(0) == '+' {
        start = 1;
    }
    let ghost body = if s@.len() > 0 && s@[0] == '+' { s@.drop_first() } else { s@ };
    assert(body =~= s@.skip(start as int));
    if start == n {
        return None;
    }
    let mut value: u64 = 0;
    let mut i: usize = start;
    while i < n
        invariant
            start <= i <= n,
            n == s@.len(),
            start < n,
            body == s@.skip(start as int),
            body == (if s@.len() > 0 && s@[0] == '+' { s@.drop_first() } else { s@ }),
            all_digits(body.take(i - start)),
            value == digits_value(body.take(i - start)),
            value <= max,
        decreases n - i,
    {
        let c = s.get_char(i);
        proof {
            assert(body[i - start] == c);
            assert(body.take(i - start + 1).drop_last() =~= body.take(i - start));
        }
        if c < '0' || c > '9' {
            proof {
                assert(!('0' <= body[i - start] <= '9'));
                assert(!all_digits(body));
                assert(unsigned_value(s@) is None);
            }
            return None;
        }
        proof {
            assert(all_digits(body.take(i - start + 1)));
        }
        let d = (c as u32 - 48) as u64;
        if d > max || value > (max - d) / 10 {
            proof {
                assert(digits_value(body.take(i - start + 1)) > max) by (nonlinear_arith)
                    requires
                        digits_value(body.take(i - start + 1)) == value * 10 + d,
                        d > max || value > (max - d) / 10,
                        d <= 9,
                        value >= 0,
                ;
                if all_digits(body) {
                    lemma_digits_prefix(body, i - start + 1);
                }
            }
            return None;
        }
        assert(value * 10 + d <= max) by (nonlinear_arith)
            requires
                value <= (max - d) / 10,
                d <= 9,
        ;
        value = value * 10 + d;
        i = i + 1;
    }
    assert(body.take(n - start) =~= body);
    Some(value)
}

/// A command of the interactive session.
#[derive(Debug, Clone, PartialEq, Eq)]
pub enum DemoCommand {
    /// Show the help text.
    Help,
    /// Leave the session.
    Quit,
    /// Show the top levels of the book.
    Book {
        /// How many levels per side.
        depth: usize,
    },
    /// Place a limit order.
    Place {
        /// Buy or sell.
        side: OrderSide,
        /// Whole price.
        price: u64,
        /// Whole quantity.
        quantity: u64,
        /// Time in force.
        time_in_force: TimeInForce,
    },
    /// Place a market order.
    Market {
        /// Buy or sell.
        side: OrderSide,
        /// Whole quantity.
        quantity: u64,
    },
    /// Cancel an order by sequence number.
    Cancel {
        /// The order's sequence number.
        sequence: u64,
    },
    /// Show the most recent trades.
    Trades {
        /// How many.
        count: usize,
    },
    /// Show the resting orders.
    Orders,
    /// Show the best prices and the spread.
    Spread,
    /// The line could not be used; the text says why (lines separated by `\n`).
    Rejected {
        /// What to tell the user.
        message: String,
    },
}

/// The side a word names: `buy`/`b` or `sell`/`s` in any case.
pub open spec fn side_word(w: Seq<char>) -> Option<OrderSide> {
    let l = lowercase(w);
    if l == "buy"@ || l == "b"@ {
        Some(OrderSide::Buy)
    } else if l == "sell"@ || l == "s"@ {
        Some(OrderSide::Sell)
    } else {
        None
    }
}

/// The time in force a word names, in any case.
pub open spec fn tif_word(w: Seq<char>) -> Option<TimeInForce> {
    let l = lowercase(w);
    if l == "gtc"@ {
        Some(TimeInForce::GoodTilCancelled)
    } else if l == "ioc"@ {
        Some(TimeInForce::ImmediateOrCancel)
    } else if l == "fok"@ {
        Some(TimeInForce::FillOrKill)
    } else if l == "postonly"@ || l == "post"@ || l == "po"@ {
        Some(TimeInForce::PostOnly)
    } else {
        None
    }
}

/// A positive whole number a word spells.
pub open spec fn positive_word(w: Seq<char>) -> Option<u64> {
    match bounded_value(w, u64::MAX as int) {
        Some(v) => if v > 0 { Some(v as u64) } else { None },
        None => None,
    }
}

fn parse_side(word: &str) -> (r: Option<OrderSide>)
    ensures
        r == side_word(word@),
{
    let lower = to_lowercase(word);
    let l = lower.as_str();
    if same_text(l, "buy") || same_text(l, "b") {
        Some(OrderSide::Buy)
    } else if same_text(l, "sell") || same_text(l, "s") {
        Some(OrderSide::Sell)
    } else {
        None
    }
}

fn parse_tif(word: &str) -> (r: Option<TimeInForce>)
    ensures
        r == tif_word(word@),
{
    let lower = to_lowercase(word);
    let l = lower.as_str();
    if same_text(l, "gtc") {
        Some(TimeInForce::GoodTilCancelled)
    } else if same_text(l, "ioc") {
        Some(TimeInForce::ImmediateOrCancel)
    } else if same_text(l, "fok") {
        Some(TimeInForce::FillOrKill)
    } else if same_text(l, "postonly") || same_text(l, "post") || same_text(l, "po") {
        Some(TimeInForce::PostOnly)
    } else {
        None
    }
}

fn parse_positive(word: &str) -> (r: Option<u64>)
    ensures
        r == positive_word(word@),
{
    match parse_bounded(word, u64::MAX) {
        Some(v) => if v > 0 { Some(v) } else { None },
        None => None,
    }
}

/// A count a word spells, or `default` when there is no word or it is not a
/// number that fits.
pub open spec fn count_word(w: Option<Seq<char>>, default: usize) -> usize {
    match w {
        Some(t) => match bounded_value(t, usize::MAX as int) {
            Some(v) => v as usize,
            None => default,
        },
        None => default,
    }
}

fn parse_count(parts: &Vec<String>, default: usize) -> (r: usize)
    ensures
        r == count_word(if parts@.len() > 1 { Some(parts@[1]@) } else { None }, default),
{
    if parts.len() > 1 {
        match parse_bounded(parts[1].as_str(), usize::MAX as u64) {
            Some(v) => v as usize,
            None => default,
        }
    } else {
        default
    }
}

/// The text `before` + `word` + `after`.
fn quoted(before: &str, word: &str, after: &str) -> (r: String)
    ensures
        r@ == before@ + word@ + after@,
{
    let mut s = before.to_owned();
    s.append(word);
    s.append(after);
    s
}

/// The command a non-empty line of words asks for: the first word (in any
/// case) names it, the following words are its arguments.
pub fn parse_command(parts: &Vec<String>) -> (r: DemoCommand)
    requires
        parts@.len() > 0,
    ensures
        ({
            let name = lowercase(parts@[0]@);
            let n = parts@.len();
            if name == "help"@ || name == "h"@ || name == "?"@ {
                r == DemoCommand::Help
            } else if name == "quit"@ || name == "exit"@ || name == "q"@ {
                r == DemoCommand::Quit
            } else if name == "book"@ || name == "b"@ {
                r == DemoCommand::Book { depth: count_word(if n > 1 { Some(parts@[1]@) } else { None }, 5) }
            } else if name == "place"@ || name == "p"@ {
                if n < 4 {
                    r matches DemoCommand::Rejected { message } && message@
                        == "Usage: place <buy|sell> <price> <qty> [tif]\n  tif options: gtc (default), ioc, fok, postonly"@
                } else if side_word(parts@[1]@) is None {
                    r matches DemoCommand::Rejected { message } && message@ == "Invalid side: '"@ + parts@[1]@
                        + "'. Use 'buy' or 'sell'."@
                } else if positive_word(parts@[2]@) is None {
                    r matches DemoCommand::Rejected { message } && message@ == "Invalid price: '"@ + parts@[2]@
                        + "'. Must be a positive integer."@
                } else if positive_word(parts@[3]@) is None {
                    r matches DemoCommand::Rejected { message } && message@ == "Invalid quantity: '"@ + parts@[3]@
                        + "'. Must be a positive integer."@
                } else if n > 4 && tif_word(parts@[4]@) is None {
                    r matches DemoCommand::Rejected { message } && message@ == "Invalid TIF: '"@ + parts@[4]@
                        + "'. Use gtc, ioc, fok, or postonly."@
                } else {
                    r == DemoCommand::Place {
                        side: side_word(parts@[1]@)->Some_0,
                        price: positive_word(parts@[2]@)->Some_0,
                        quantity: positive_word(parts@[3]@)->Some_0,
                        time_in_force: if n > 4 {
                            tif_word(parts@[4]@)->Some_0
                        } else {
                            TimeInForce::GoodTilCancelled
                        },
                    }
                }
            } else if name == "market"@ || name == "m"@ {
                if n < 3 {
                    r matches DemoCommand::Rejected { message } && message@ == "Usage: market <buy|sell> <qty>"@
                } else if side_word(parts@[1]@) is None {
                    r matches DemoCommand::Rejected { message } && message@ == "Invalid side: '"@ + parts@[1]@
                        + "'. Use 'buy' or 'sell'."@
                } else if positive_word(parts@[2]@) is None {
                    r matches DemoCommand::Rejected { message } && message@ == "Invalid quantity: '"@ + parts@[2]@
                        + "'. Must be a positive integer."@
                } else {
                    r == DemoCommand::Market {
                        side: side_word(parts@[1]@)->Some_0,
                        quantity: positive_word(parts@[2]@)->Some_0,
                    }
                }
            } else if name == "cancel"@ || name == "c"@ {
                if n < 2 {
                    r matches DemoCommand::Rejected { message } && message@ == "Usage: cancel <sequence_number>"@
                } else if bounded_value(parts@[1]@, u64::MAX as int) is None {
                    r matches DemoCommand::Rejected { message } && message@ == "Invalid sequence number: '"@
                        + parts@[1]@ + "'"@
                } else {
                    r == DemoCommand::Cancel { sequence: bounded_value(parts@[1]@, u64::MAX as int)->Some_0 as u64 }
                }
            } else if name == "trades"@ || name == "t"@ {
                r == DemoCommand::Trades { count: count_word(if n > 1 { Some(parts@[1]@) } else { None }, 10) }
            } else if name == "orders"@ || name == "o"@ {
                r == DemoCommand::Orders
            } else if name == "spread"@ || name == "s"@ {
                r == DemoCommand::Spread
            } else {
                r matches DemoCommand::Rejected { message } && message@ == "Unknown command: '"@ + name
                    + "'. Type 'help' for available commands."@
            }
        }),
{
    let lower = to_lowercase(parts[0].as_str());
    let name = lower.as_str();
    let n = parts.len();
    if same_text(name, "help") || same_text(name, "h") || same_text(name, "?") {
        DemoCommand::Help
    } else if same_text(name, "quit") || same_text(name, "exit") || same_text(name, "q") {
        DemoCommand::Quit
    } else if same_text(name, "book") || same_text(name, "b") {
        DemoCommand::Book { depth: parse_count(parts, 5) }
    } else if same_text(name, "place") || same_text(name, "p") {
        if n < 4 {
            return DemoCommand::Rejected {
                message: "Usage: place <buy|sell> <price> <qty> [tif]\n  tif options: gtc (default), ioc, fok, postonly".to_owned(),
            };
        }
        let side = match parse_side(parts[1].as_str()) {
            Some(s) => s,
            None => {
                return DemoCommand::Rejected {
                    message: quoted("Invalid side: '", parts[1].as_str(), "'. Use 'buy' or 'sell'."),
                }
            },
        };
        let price = match parse_positive(parts[2].as_str()) {
            Some(p) => p,
            None => {
                return DemoCommand::Rejected {
                    message: quoted("Invalid price: '", parts[2].as_str(), "'. Must be a positive integer."),
                }
            },
        };
        let quantity = match parse_positive(parts[3].as_str()) {
            Some(q) => q,
            None => {
                return DemoCommand::Rejected {
                    message: quoted("Invalid quantity: '", parts[3].as_str(), "'. Must be a positive integer."),
                }
            },
        };
        let time_in_force = if n > 4 {
            match parse_tif(parts[4].as_str()) {
                Some(t) => t,
                None => {
                    return DemoCommand::Rejected {
                        message: quoted("Invalid TIF: '", parts[4].as_str(), "'. Use gtc, ioc, fok, or postonly."),
                    }
                },
            }
        } else {
            TimeInForce::GoodTilCancelled
        };
        DemoCommand::Place { side, price, quantity, time_in_force }
    } else if same_text(name, "market") || same_text(name, "m") {
        if n < 3 {
            return DemoCommand::Rejected { message: "Usage: market <buy|sell> <qty>".to_owned() };
        }
        let side = match parse_side(parts[1].as_str()) {
            Some(s) => s,
            None => {
                return DemoCommand::Rejected {
                    message: quoted("Invalid side: '", parts[1].as_str(), "'. Use 'buy' or 'sell'."),
                }
            },
        };
        let quantity = match parse_positive(parts[2].as_str()) {
            Some(q) => q,
            None => {
                return DemoCommand::Rejected {
                    message: quoted("Invalid quantity: '", parts[2].as_str(), "'. Must be a positive integer."),
                }
            },
        };
        DemoCommand::Market { side, quantity }
    } else if same_text(name, "cancel") || same_text(name, "c") {
        if n < 2 {
            return DemoCommand::Rejected { message: "Usage: cancel <sequence_number>".to_owned() };
        }
        match parse_bounded(parts[1].as_str(), u64::MAX) {
            Some(sequence) => DemoCommand::Cancel { sequence },
            None => DemoCommand::Rejected { message: quoted("Invalid sequence number: '", parts[1].as_str(), "'") },
        }
    } else if same_text(name, "trades") || same_text(name, "t") {
        DemoCommand::Trades { count: parse_count(parts, 10) }
    } else if same_text(name, "orders") || same_text(name, "o") {
        DemoCommand::Orders
    } else if same_text(name, "spread") || same_text(name, "s") {
        DemoCommand::Spread
    } else {
        DemoCommand::Rejected {
            message: quoted("Unknown command: '", name, "'. Type 'help' for available commands."),
        }
    }
}

} // verus!
