//! Events that the execution client emits.

use vstd::prelude::*;

use crate::fixed::{Price, Quantity};
use crate::model::{LiquiditySide, Order};
use crate::text;

verus! {

/// A fill of an order.
#[derive(Debug)]
pub struct Fill {
    pub trade_id: String,
    pub last_qty: Quantity,
    pub last_px: Price,
    pub liquidity: LiquiditySide,
}

/// What happened to an order.
#[derive(Debug)]
pub enum OrderChange {
    Denied { reason: String },
    Submitted,
    Rejected { reason: String },
    Accepted { venue_order_id: String },
    Canceled { venue_order_id: String },
    CancelRejected { venue_order_id: String, reason: String },
    Updated { venue_order_id: String, quantity: Quantity },
    ModifyRejected { known_id: Option<String>, reason: String },
    Filled { venue_order_id: String, fill: Fill },
}

/// What happened to which order.
#[derive(Debug)]
pub struct OrderEvent {
    pub client_order_id: String,
    pub change: OrderChange,
}

/// A fill, its texts as characters.
pub struct FillView {
    pub trade_id: Seq<char>,
    pub last_qty: Quantity,
    pub last_px: Price,
    pub liquidity: LiquiditySide,
}

/// What happened to an order, texts as characters.
pub enum ChangeView {
    Denied { reason: Seq<char> },
    Submitted,
    Rejected { reason: Seq<char> },
    Accepted { venue_order_id: Seq<char> },
    Canceled { venue_order_id: Seq<char> },
    CancelRejected { venue_order_id: Seq<char>, reason: Seq<char> },
    Updated { venue_order_id: Seq<char>, quantity: Quantity },
    ModifyRejected { known_id: Option<Seq<char>>, reason: Seq<char> },
    Filled { venue_order_id: Seq<char>, fill: FillView },
}

impl View for Fill {
    type V = FillView;

    open spec fn view(&self) -> FillView {
        FillView {
            trade_id: self.trade_id@,
            last_qty: self.last_qty,
            last_px: self.last_px,
            liquidity: self.liquidity,
        }
    }
}

impl View for OrderChange {
    type V = ChangeView;

    open spec fn view(&self) -> ChangeView {
        match *self {
            OrderChange::Denied { reason } => ChangeView::Denied { reason: reason@ },
            OrderChange::Submitted => ChangeView::Submitted,
            OrderChange::Rejected { reason } => ChangeView::Rejected { reason: reason@ },
            OrderChange::Accepted { venue_order_id } => ChangeView::Accepted {
                venue_order_id: venue_order_id@,
            },
            OrderChange::Canceled { venue_order_id } => ChangeView::Canceled {
                venue_order_id: venue_order_id@,
            },
            OrderChange::CancelRejected { venue_order_id, reason } => ChangeView::CancelRejected {
                venue_order_id: venue_order_id@,
                reason: reason@,
            },
            OrderChange::Updated { venue_order_id, quantity } => ChangeView::Updated {
                venue_order_id: venue_order_id@,
                quantity,
            },
            OrderChange::ModifyRejected { known_id, reason } => ChangeView::ModifyRejected {
                known_id: match known_id {
                    Some(id) => Some(id@),
                    None => None,
                },
                reason: reason@,
            },
            OrderChange::Filled { venue_order_id, fill } => ChangeView::Filled {
                venue_order_id: venue_order_id@,
                fill: fill@,
            },
        }
    }
}

impl View for OrderEvent {
    type V = (Seq<char>, ChangeView);

    open spec fn view(&self) -> (Seq<char>, ChangeView) {
        (self.client_order_id@, self.change@)
    }
}

/// The views of a list of events.
pub open spec fn event_views(events: Seq<OrderEvent>) -> Seq<(Seq<char>, ChangeView)> {
    Seq::new(events.len(), |i: int| events[i]@)
}

/// An event of an order.
pub fn order_event(order: &Order, change: OrderChange) -> (r: OrderEvent)
    ensures
        r@ == (order.client_order_id@, change@),
{
    OrderEvent { client_order_id: order.client_order_id.clone(), change }
}

/// All characters are ASCII.
pub open spec fn is_ascii_text(s: Seq<char>) -> bool {
    forall|i: int| 0 <= i < s.len() ==> (#[trigger] s[i] as u32) < 128
}

/// An id that a venue order can have: ASCII, and more than white space.
pub open spec fn is_venue_id(s: Seq<char>) -> bool {
    is_ascii_text(s) && text::trimmed(s).len() > 0
}

/// Whether a venue order can have the id.
pub fn valid_venue_id(id: &str) -> (r: bool)
    ensures
        r == is_venue_id(id@),
{
    let chars: Vec<char> = text::chars_of(id);
    let mut i: usize = 0;
    while i < chars.len()
        invariant
            i <= chars.len(),
            chars@ == id@,
            forall|k: int| 0 <= k < i ==> (#[trigger] id@[k] as u32) < 128,
        decreases chars.len() - i,
    {
        if chars[i] as u32 >= 128 {
            assert(id@[i as int] as u32 >= 128);
            return false;
        }
        i += 1;
    }
    text::trim(id).as_str().unicode_len() > 0
}

/// The longest trade id.
pub const MAX_TRADE_ID_LEN: usize = 36;

/// `lp-kind-order-block`, of which the last 36 characters are kept.
pub open spec fn trade_id(chain_order_id: Seq<char>, block_num: nat, kind: Seq<char>) -> Seq<char> {
    let key = "lp-"@ + kind + "-"@ + chain_order_id + "-"@ + text::decimal_text(block_num);
    if key.len() <= 36 {
        key
    } else {
        key.skip(key.len() - 36)
    }
}

/// The id of a trade of an order.
pub fn lightpool_trade_id(chain_order_id: &str, block_num: u64, kind: &str) -> (r: String)
    requires
        is_ascii_text(chain_order_id@),
        is_ascii_text(kind@),
    ensures
        r@ == trade_id(chain_order_id@, block_num as nat, kind@),
        r@.len() <= MAX_TRADE_ID_LEN,
        r@.len() > 0,
{
    let mut key: String = "lp-".to_owned();
    key.append(kind);
    key.append("-");
    key.append(chain_order_id);
    key.append("-");
    key.append(text::u64_text(block_num).as_str());
    let chars: Vec<char> = text::chars_of(key.as_str());
    proof {
        reveal_strlit("lp-");
    }
    if chars.len() <= MAX_TRADE_ID_LEN {
        key
    } else {
        let r: String = text::text_of(&chars, chars.len() - MAX_TRADE_ID_LEN, chars.len());
        assert(r@ =~= chars@.skip(chars@.len() - 36));
        r
    }
}

/// A trade id names kind, chain order and block, and keeps the end of what is too long.
pub proof fn law_trade_ids(chain_order_id: Seq<char>, block_num: nat, kind: Seq<char>)
    ensures
        ({
            let id = trade_id(chain_order_id, block_num, kind);
            let full = "lp-"@ + kind + "-"@ + chain_order_id + "-"@ + text::decimal_text(block_num);
            &&& id.len() <= 36
            &&& full.len() <= 36 ==> id == full
            &&& full.len() > 36 ==> id.len() == 36 && full.skip(full.len() - 36) == id
        }),
{
}

} // verus!
