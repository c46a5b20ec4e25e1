//! Trade creation from a gap-close event: the strategy enters against the
//! closed gap's flow, with the far gap edge as entry, the near edge as
//! stop-loss, a take-profit at twice the risk, and a nominal sizing of
//! 1000 units over the entry price.
use crate::models::{Flow, Trade, FVG};
use crate::price::{Price, PRICE_ATOMS_LIMIT};
use crate::store::Store;
use crate::Error;
use vstd::prelude::*;

verus! {

pub open spec fn trade_flow_of(f: FVG) -> Flow {
    if f.flow == Flow::Bear {
        Flow::Bull
    } else {
        Flow::Bear
    }
}

pub open spec fn trade_entry_of(f: FVG) -> Price {
    if trade_flow_of(f) == Flow::Bull {
        f.high
    } else {
        f.low
    }
}

pub open spec fn trade_stop_of(f: FVG) -> Price {
    if trade_flow_of(f) == Flow::Bull {
        f.low
    } else {
        f.high
    }
}

/// Twice the absolute risk between stop-loss and entry.
pub open spec fn trade_reward_of(f: FVG) -> int {
    2 * abs_int(trade_stop_of(f).atoms - trade_entry_of(f).atoms)
}

pub open spec fn abs_int(v: int) -> int {
    if v < 0 {
        -v
    } else {
        v
    }
}

pub open spec fn trade_take_profit_of(f: FVG) -> int {
    if trade_flow_of(f) == Flow::Bull {
        trade_entry_of(f).atoms + trade_reward_of(f)
    } else {
        trade_entry_of(f).atoms - trade_reward_of(f)
    }
}

/// Nominal sizing: 1000 units divided by the entry price, in atoms.
pub open spec fn trade_quantity_of(f: FVG) -> int {
    (1_000_000_000_000_000_000_000 as int) / (trade_entry_of(f).atoms as int)
}

/// Whether a trade can be built from the closed gap: a positive entry, a
/// non-zero quantity, and a take-profit within the representable range.
pub open spec fn trade_feasible(f: FVG) -> bool {
    &&& trade_entry_of(f).atoms > 0
    &&& trade_quantity_of(f) >= 1
    &&& -PRICE_ATOMS_LIMIT <= trade_take_profit_of(f) <= PRICE_ATOMS_LIMIT
}

/// The trade a closed gap gives rise to.
pub open spec fn trade_of_fvg(f: FVG) -> Trade {
    Trade {
        pair: f.pair,
        open_time: f.close_time->0,
        timeframe: f.timeframe,
        fill_time: None,
        quantity: Price { atoms: trade_quantity_of(f) as i128 },
        entry: trade_entry_of(f),
        stop_loss: trade_stop_of(f),
        take_profit: Price { atoms: trade_take_profit_of(f) as i128 },
        flow: trade_flow_of(f),
        close_time: None,
        close: None,
    }
}

/// Consumes one `fvg_close` event: builds the opposite-flow trade and
/// stores it (a key conflict is a no-op for idempotency). Fails exactly
/// when no well-formed trade exists for the gap: entry not positive, a
/// vanishing quantity, or a take-profit out of range.
pub fn handle_fvg_close(store: &mut Store, data: &FVG) -> (r: Result<Trade, Error>)
    requires
        old(store).wf(),
        data.wf(),
        data.close_time is Some,
    ensures
        final (store).wf(),
        final (store).candles@ == old(store).candles@,
        final (store).fvgs@ == old(store).fvgs@,
        final (store).swings@ == old(store).swings@,
        final (store).closes@ == old(store).closes@,
        r is Ok <==> trade_feasible(*data),
        r matches Ok(t) ==> {
            &&& t == trade_of_fvg(*data)
            &&& t.wf()
            &&& (exists|i: int|
                0 <= i < old(store).trades@.len() && (#[trigger] old(store).trades@[i]).same_key(
                    t,
                )) ==> final (store).trades@ == old(store).trades@
            &&& !(exists|i: int|
                0 <= i < old(store).trades@.len() && (#[trigger] old(store).trades@[i]).same_key(
                    t,
                )) ==> final (store).trades@ == old(store).trades@.push(t)
        },
        r is Err ==> final (store).trades@ == old(store).trades@,
        r matches Err(e) ==> e is TradeError,
{
    let flow = if matches!(data.flow, Flow::Bear) {
        Flow::Bull
    } else {
        Flow::Bear
    };
    let (entry, stop_loss) = if matches!(flow, Flow::Bull) {
        (data.high, data.low)
    } else {
        (data.low, data.high)
    };
    if entry.atoms <= 0 {
        return Err(Error::TradeError("entry price is not positive".to_owned()));
    }
    let risk: i128 = stop_loss.atoms - entry.atoms;
    let risk_abs: i128 = if risk < 0 {
        -risk
    } else {
        risk
    };
    let reward: i128 = 2 * risk_abs;
    let take_profit: i128 = if matches!(flow, Flow::Bull) {
        entry.atoms + reward
    } else {
        entry.atoms - reward
    };
    if take_profit > PRICE_ATOMS_LIMIT || take_profit < -PRICE_ATOMS_LIMIT {
        return Err(Error::TradeError("take profit out of range".to_owned()));
    }
    let quantity: i128 = (1_000_000_000_000_000_000_000u128 / (entry.atoms as u128)) as i128;
    proof {
        vstd::arithmetic::div_mod::lemma_div_is_ordered_by_denominator(
            1_000_000_000_000_000_000_000,
            1,
            entry.atoms as int,
        );
    }
    if quantity < 1 {
        return Err(Error::TradeError("entry price too large for sizing".to_owned()));
    }
    let open_time = match data.close_time {
        Some(t) => t,
        None => {
            proof {
                assert(false);
            }
            0
        },
    };
    let trade = Trade {
        pair: data.pair.clone(),
        open_time,
        timeframe: data.timeframe.clone(),
        fill_time: None,
        quantity: Price { atoms: quantity },
        entry,
        stop_loss,
        take_profit: Price { atoms: take_profit },
        flow,
        close_time: None,
        close: None,
    };
    store.insert_trade(trade.clone());
    Ok(trade)
}

} // verus!
