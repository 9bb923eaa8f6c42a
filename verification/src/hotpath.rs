//! What is exchanged with the native market making engine.
use vstd::prelude::*;

use crate::num;
use crate::strategy::{StrategyCommand, StrategyCommandView};
use crate::types::{Level, OrderType, Price, Qty, Side, Symbol, SymbolView, TimeInForce};

verus! {

/// How many levels of each side the native engine takes.
pub const MAX_LEVELS: usize = 40;

/// A level of the order book.
#[derive(Debug, Clone, Copy, PartialEq, Eq, Structural)]
pub struct HpLevel {
    pub price: i64,
    pub qty: u64,
}

impl Default for HpLevel {
    fn default() -> (r: Self)
        ensures
            r == (HpLevel { price: 0, qty: 0 }),
    {
        HpLevel { price: 0, qty: 0 }
    }
}

/// A side.
#[derive(Debug, Clone, Copy, PartialEq, Eq, Structural)]
pub enum HpSide {
    Buy,
    Sell,
}

impl HpSide {
    /// The number that the native engine knows the side by.
    pub open spec fn number(self) -> i32 {
        match self {
            HpSide::Buy => 0,
            HpSide::Sell => 1,
        }
    }

    /// The side of an order.
    pub open spec fn of(side: Side) -> HpSide {
        match side {
            Side::Buy => HpSide::Buy,
            Side::Sell => HpSide::Sell,
        }
    }

    /// The side of an order.
    pub fn from_side(side: Side) -> (r: HpSide)
        ensures
            r == HpSide::of(side),
    {
        match side {
            Side::Buy => HpSide::Buy,
            Side::Sell => HpSide::Sell,
        }
    }

    /// The number that the native engine knows the side by.
    pub fn code(self) -> (r: i32)
        ensures
            r == self.number(),
    {
        match self {
            HpSide::Buy => 0,
            HpSide::Sell => 1,
        }
    }
}

/// What the native engine asks for.
#[derive(Debug, Clone, Copy, PartialEq, Eq, Structural)]
pub enum HpCmdTag {
    Nothing,
    PlaceBid,
    PlaceAsk,
    CancelAll,
}

impl HpCmdTag {
    /// What a number of the native engine asks for; nothing where it is not known.
    pub open spec fn of(number: i32) -> HpCmdTag {
        if number == 1 {
            HpCmdTag::PlaceBid
        } else if number == 2 {
            HpCmdTag::PlaceAsk
        } else if number == 3 {
            HpCmdTag::CancelAll
        } else {
            HpCmdTag::Nothing
        }
    }

    /// What a number of the native engine asks for; nothing where it is not known.
    pub fn from_code(number: i32) -> (r: HpCmdTag)
        ensures
            r == HpCmdTag::of(number),
    {
        match number {
            1 => HpCmdTag::PlaceBid,
            2 => HpCmdTag::PlaceAsk,
            3 => HpCmdTag::CancelAll,
            _ => HpCmdTag::Nothing,
        }
    }
}

/// A command of the native engine.
#[derive(Debug, Clone, Copy, PartialEq, Eq, Structural)]
pub struct HpCommand {
    pub tag: i32,
    pub price: i64,
    pub qty: u64,
}

impl Default for HpCommand {
    fn default() -> (r: Self)
        ensures
            r == (HpCommand { tag: 0, price: 0, qty: 0 }),
    {
        HpCommand { tag: 0, price: 0, qty: 0 }
    }
}

/// What the native engine answers to an event.
#[derive(Debug, Clone, Copy)]
pub struct HpResult {
    pub commands: [HpCommand; 4],
    pub count: i32,
    pub fair_value: i64,
    pub vpin: i64,
    pub skew: i64,
    pub half_spread: i64,
    pub compute_ns: i64,
}

impl Default for HpResult {
    fn default() -> (r: Self)
        ensures
            r.commands@ == Seq::new(4, |i: int| HpCommand { tag: 0, price: 0, qty: 0 }),
            r.count == 0,
            r.fair_value == 0,
            r.vpin == 0,
            r.skew == 0,
            r.half_spread == 0,
            r.compute_ns == 0,
    {
        let r = HpResult {
            commands: [HpCommand { tag: 0, price: 0, qty: 0 };4],
            count: 0,
            fair_value: 0,
            vpin: 0,
            skew: 0,
            half_spread: 0,
            compute_ns: 0,
        };
        assert(r.commands@ =~= Seq::new(4, |i: int| HpCommand { tag: 0, price: 0, qty: 0 }));
        r
    }
}

/// A limit order at a price of the native engine.
pub open spec fn quote(symbol: SymbolView, side: Side, cmd: HpCommand) -> StrategyCommandView {
    StrategyCommandView::PlaceOrder {
        symbol,
        side,
        order_type: OrderType::Limit,
        price: Price(cmd.price),
        qty: Qty(cmd.qty),
        time_in_force: TimeInForce::GoodTilCancel,
        venue: symbol.venue,
    }
}

/// The strategy command of a command of the native engine.
pub open spec fn command_of(cmd: HpCommand, symbol: SymbolView) -> Option<StrategyCommandView> {
    match HpCmdTag::of(cmd.tag) {
        HpCmdTag::PlaceBid => Some(quote(symbol, Side::Buy, cmd)),
        HpCmdTag::PlaceAsk => Some(quote(symbol, Side::Sell, cmd)),
        HpCmdTag::CancelAll => Some(StrategyCommandView::CancelAll { symbol: Some(symbol) }),
        HpCmdTag::Nothing => None,
    }
}

/// The strategy commands of the first `n` commands of the native engine, in their order.
pub open spec fn commands_of(commands: Seq<HpCommand>, symbol: SymbolView, n: int) -> Seq<
    StrategyCommandView,
>
    decreases n,
{
    if n <= 0 {
        Seq::empty()
    } else {
        match command_of(commands[n - 1], symbol) {
            Some(command) => commands_of(commands, symbol, n - 1).push(command),
            None => commands_of(commands, symbol, n - 1),
        }
    }
}

/// A limit order at a price of the native engine.
fn place(symbol: &Symbol, side: Side, cmd: &HpCommand) -> (r: StrategyCommand)
    ensures
        r@ == quote(symbol@, side, *cmd),
{
    StrategyCommand::PlaceOrder {
        symbol: symbol.clone(),
        side,
        order_type: OrderType::Limit,
        price: Price(cmd.price),
        qty: Qty(cmd.qty),
        time_in_force: TimeInForce::GoodTilCancel,
        venue: symbol.venue,
    }
}

/// The strategy commands of an answer of the native engine.
pub fn strategy_commands(result: &HpResult, symbol: &Symbol) -> (r: Vec<StrategyCommand>)
    requires
        result.count <= 4,
    ensures
        r.deep_view() == commands_of(result.commands@, symbol@, result.count as int),
{
    let mut out: Vec<StrategyCommand> = Vec::new();
    let mut i: i32 = 0;
    assert(out.deep_view() =~= Seq::empty());
    while i < result.count
        invariant
            0 <= i,
            result.count > 0 ==> i <= result.count,
            result.count <= 0 ==> i == 0,
            result.count <= 4,
            result.commands@.len() == 4,
            out.deep_view() == commands_of(result.commands@, symbol@, i as int),
        decreases result.count - i,
    {
        let ghost before = out.deep_view();
        let cmd: HpCommand = result.commands[i as usize];
        match HpCmdTag::from_code(cmd.tag) {
            HpCmdTag::PlaceBid => {
                out.push(place(symbol, Side::Buy, &cmd));
                assert(out.deep_view() =~= before.push(quote(symbol@, Side::Buy, cmd)));
            },
            HpCmdTag::PlaceAsk => {
                out.push(place(symbol, Side::Sell, &cmd));
                assert(out.deep_view() =~= before.push(quote(symbol@, Side::Sell, cmd)));
            },
            HpCmdTag::CancelAll => {
                let command = StrategyCommand::CancelAll { symbol: Some(symbol.clone()) };
                let ghost c = command@;
                out.push(command);
                assert(out.deep_view() =~= before.push(c));
            },
            HpCmdTag::Nothing => {},
        }
        i += 1;
    }
    out
}

/// Buffers through which levels are handed to the native engine.
pub struct LevelBuffers {
    pub bids: [HpLevel; 40],
    pub asks: [HpLevel; 40],
}

/// A buffer after levels were put into it: as many as it has room for, what was there staying
/// behind them.
pub open spec fn loaded(buffer: Seq<HpLevel>, levels: Seq<Level>) -> Seq<HpLevel> {
    Seq::new(
        buffer.len(),
        |i: int|
            if i < levels.len() {
                HpLevel { price: levels[i].price.0, qty: levels[i].qty.0 }
            } else {
                buffer[i]
            },
    )
}

/// Puts levels into a buffer, and says how many.
fn load(buffer: &mut [HpLevel; 40], levels: &[Level]) -> (r: i32)
    ensures
        final(buffer)@ == loaded(old(buffer)@, levels@),
        r == num::min(levels@.len() as int, MAX_LEVELS as int),
{
    let ghost before = buffer@;
    let n: usize = if levels.len() < MAX_LEVELS {
        levels.len()
    } else {
        MAX_LEVELS
    };
    let mut i: usize = 0;
    while i < n
        invariant
            i <= n <= 40,
            n <= levels@.len(),
            before.len() == 40,
            buffer@.len() == 40,
            forall|k: int| 0 <= k < i ==> #[trigger] buffer@[k] == (HpLevel {
                price: levels@[k].price.0,
                qty: levels@[k].qty.0,
            }),
            forall|k: int| i <= k < 40 ==> #[trigger] buffer@[k] == before[k],
        decreases n - i,
    {
        buffer[i] = HpLevel { price: levels[i].price.0, qty: levels[i].qty.0 };
        i += 1;
    }
    assert(buffer@ =~= loaded(before, levels@));
    n as i32
}

impl LevelBuffers {
    /// Buffers of empty levels.
    pub fn new() -> (r: Self)
        ensures
            r.bids@ == Seq::new(40, |i: int| HpLevel { price: 0, qty: 0 }),
            r.asks@ == Seq::new(40, |i: int| HpLevel { price: 0, qty: 0 }),
    {
        let r = LevelBuffers {
            bids: [HpLevel { price: 0, qty: 0 };40],
            asks: [HpLevel { price: 0, qty: 0 };40],
        };
        assert(r.bids@ =~= Seq::new(40, |i: int| HpLevel { price: 0, qty: 0 }));
        assert(r.asks@ =~= Seq::new(40, |i: int| HpLevel { price: 0, qty: 0 }));
        r
    }

    /// Puts the levels of both sides into the buffers, and says how many of each.
    pub fn load_book(&mut self, bids: &[Level], asks: &[Level]) -> (r: (i32, i32))
        ensures
            final(self).bids@ == loaded(old(self).bids@, bids@),
            final(self).asks@ == loaded(old(self).asks@, asks@),
            r.0 == num::min(bids@.len() as int, MAX_LEVELS as int),
            r.1 == num::min(asks@.len() as int, MAX_LEVELS as int),
    {
        let bid_count: i32 = load(&mut self.bids, bids);
        let ask_count: i32 = load(&mut self.asks, asks);
        (bid_count, ask_count)
    }
}

/// The numbers of the native engine: zero buys and one sells; command one bids, two asks, three
/// cancels, and any other does nothing. A bid buys and an ask sells, at the price and for the
/// quantity that the command gives, for the symbol at its venue.
pub proof fn native_commands_are_understood(cmd: HpCommand, symbol: SymbolView)
    ensures
        HpSide::of(Side::Buy).number() == 0,
        HpSide::of(Side::Sell).number() == 1,
        match command_of(cmd, symbol) {
            Some(StrategyCommandView::PlaceOrder {
                symbol: s,
                side,
                order_type,
                price,
                qty,
                time_in_force,
                venue,
            }) => {
                &&& cmd.tag == 1 || cmd.tag == 2
                &&& side == Side::Buy <==> cmd.tag == 1
                &&& price.0 == cmd.price && qty.0 == cmd.qty
                &&& s == symbol && venue == symbol.venue
                &&& order_type == OrderType::Limit
                &&& time_in_force == TimeInForce::GoodTilCancel
            },
            Some(StrategyCommandView::CancelAll { symbol: s }) => cmd.tag == 3 && s == Some(
                symbol,
            ),
            None => cmd.tag != 1 && cmd.tag != 2 && cmd.tag != 3,
            _ => false,
        },
{
}

/// The commands of a result come in its order, those that do nothing left out, and none of them
/// where the count is not positive.
pub proof fn native_commands_keep_their_order(
    commands: Seq<HpCommand>,
    symbol: SymbolView,
    n: int,
)
    ensures
        n <= 0 ==> commands_of(commands, symbol, n).len() == 0,
        n >= 0 ==> commands_of(commands, symbol, n + 1) == (match command_of(
            commands[n],
            symbol,
        ) {
            Some(command) => commands_of(commands, symbol, n).push(command),
            None => commands_of(commands, symbol, n),
        }),
{
}

/// Levels are handed to the native engine from the front, as many as fit, price as price and
/// quantity as quantity; what is behind them is left from before.
pub proof fn levels_are_handed_over(buffer: Seq<HpLevel>, levels: Seq<Level>, i: int)
    requires
        0 <= i < buffer.len(),
    ensures
        loaded(buffer, levels).len() == buffer.len(),
        i < levels.len() ==> loaded(buffer, levels)[i].price == levels[i].price.0 && loaded(
            buffer,
            levels,
        )[i].qty == levels[i].qty.0,
        i >= levels.len() ==> loaded(buffer, levels)[i] == buffer[i],
{
}

} // verus!
