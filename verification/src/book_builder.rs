//! Incremental limit-order book.
//!
//! The book keeps one price ladder per side plus a table of live orders,
//! and is driven by decoded Add/Modify/Delete/Trade/Snapshot messages.
//! `apply_message` is specified by the relation `spec_apply_rel`, which
//! pins the new state — ladders pointwise by `spec_level_qty`, the order
//! table exactly — for every message and spells out each rejection.

use vstd::prelude::*;
use crate::decoder::{MessageRef, MessageView, SnapshotView};
use crate::levels::{
    levels_add, levels_retune, levels_set, levels_sub, lemma_level_qty_absent,
    lemma_level_qty_bounds, lemma_level_qty_nonneg, spec_level_qty, spec_levels_wf,
    spec_sat_add, spec_sat_sub,
};
use crate::protocol::{AddOrder, ModifyOrder, SnapshotLevel, Trade};

verus! {

/// Side of the book an order rests on.
///
/// On the wire: 0 = bid, 1 = ask; any other byte is invalid.
#[derive(Debug, Clone, Copy, PartialEq, Eq, Structural)]
pub enum Side {
    Bid,
    Ask,
}

/// The side a wire byte stands for, if any.
pub open spec fn spec_side_of(v: u8) -> Option<Side> {
    if v == 0 {
        Some(Side::Bid)
    } else if v == 1 {
        Some(Side::Ask)
    } else {
        None
    }
}

impl Side {
    /// Parse a wire side byte; bytes other than 0 and 1 are invalid.
    pub fn from_u8(v: u8) -> (r: Option<Self>)
        ensures
            r == spec_side_of(v),
    {
        match v {
            0 => Some(Side::Bid),
            1 => Some(Side::Ask),
            _ => None,
        }
    }
}

/// A live order resting in the book.
#[derive(Debug, Clone, Copy, PartialEq, Eq, Structural)]
pub struct Order {
    pub order_id: u64,
    /// Fixed-point price: price times 10^8.
    pub price: u64,
    pub quantity: u32,
    pub side: Side,
}

/// Why the book rejected a message; the state is unchanged on rejection.
#[derive(Debug, Clone, Copy, PartialEq, Eq, Structural)]
pub enum BookError {
    /// An `AddOrder` carried a side byte other than 0 or 1.
    InvalidSide,
    /// An `AddOrder` reused an order id that is still live.
    DuplicateOrder,
    /// A `ModifyOrder` or `DeleteOrder` named an unknown order id.
    UnknownOrder,
}

/// Abstract state of a book: both price ladders (ascending by price) and
/// the live orders in arrival order.
pub struct BookView {
    pub bids: Seq<(u64, u32)>,
    pub asks: Seq<(u64, u32)>,
    pub orders: Seq<Order>,
}

/// Order ids are pairwise distinct.
pub open spec fn spec_orders_unique(orders: Seq<Order>) -> bool {
    forall|i: int, j: int|
        0 <= i < j < orders.len() ==> (#[trigger] orders[i]).order_id != (
        #[trigger] orders[j]).order_id
}

/// Some live order carries id `id`.
pub open spec fn spec_has_order(orders: Seq<Order>, id: u64) -> bool {
    exists|i: int| 0 <= i < orders.len() && (#[trigger] orders[i]).order_id == id
}

/// Index of the live order carrying `id` (meaningful when one exists and
/// ids are unique).
pub open spec fn spec_order_index(orders: Seq<Order>, id: u64) -> int {
    choose|i: int| 0 <= i < orders.len() && (#[trigger] orders[i]).order_id == id
}

/// A well-formed book: both ladders well-formed, order ids unique.
pub open spec fn spec_book_wf(v: BookView) -> bool {
    spec_levels_wf(v.bids) && spec_levels_wf(v.asks) && spec_orders_unique(v.orders)
}

/// Aggregate resting quantity at price `p` on side `s`.
pub open spec fn spec_book_level(v: BookView, s: Side, p: u64) -> int {
    match s {
        Side::Bid => spec_level_qty(v.bids, p),
        Side::Ask => spec_level_qty(v.asks, p),
    }
}

/// The ladder of side `s` changed pointwise at `p` alone — to `newv` —
/// and the other ladder did not change at all.
pub open spec fn spec_side_updated(
    pre: BookView,
    post: BookView,
    s: Side,
    p: u64,
    newv: int,
) -> bool {
    &&& (match s {
        Side::Bid => post.asks == pre.asks,
        Side::Ask => post.bids == pre.bids,
    })
    &&& forall|x: u64|
        #[trigger] spec_book_level(post, s, x) == (if x == p {
            newv
        } else {
            spec_book_level(pre, s, x)
        })
}

/// Effect of a successful `AddOrder` with parsed side `s`: the order is
/// appended and its quantity joins its price level (saturating).
pub open spec fn spec_add_applied(pre: BookView, post: BookView, m: AddOrder, s: Side) -> bool {
    &&& post.orders == pre.orders.push(
        Order { order_id: m.order_id, price: m.price, quantity: m.quantity, side: s },
    )
    &&& spec_side_updated(
        pre,
        post,
        s,
        m.price,
        spec_sat_add(spec_book_level(pre, s, m.price), m.quantity as int),
    )
}

/// Effect of a successful `ModifyOrder` on a live order: the level
/// becomes `level - old + new` (each step saturating, the key present
/// exactly while the value is positive), and the order keeps the new
/// quantity — or dies when it is 0.
pub open spec fn spec_modify_applied(pre: BookView, post: BookView, m: ModifyOrder) -> bool {
    let i = spec_order_index(pre.orders, m.order_id);
    let o = pre.orders[i];
    let lvl = spec_book_level(pre, o.side, o.price);
    &&& post.orders == (if m.new_quantity == 0 {
        pre.orders.remove(i)
    } else {
        pre.orders.update(
            i,
            Order {
                order_id: o.order_id,
                price: o.price,
                quantity: m.new_quantity,
                side: o.side,
            },
        )
    })
    &&& spec_side_updated(
        pre,
        post,
        o.side,
        o.price,
        spec_sat_add(spec_sat_sub(lvl, o.quantity as int), m.new_quantity as int),
    )
}

/// Effect of a successful `DeleteOrder`: the order dies and its quantity
/// leaves its price level (saturating at 0, level removed on 0).
pub open spec fn spec_delete_applied(pre: BookView, post: BookView, id: u64) -> bool {
    let i = spec_order_index(pre.orders, id);
    let o = pre.orders[i];
    &&& post.orders == pre.orders.remove(i)
    &&& spec_side_updated(
        pre,
        post,
        o.side,
        o.price,
        spec_sat_sub(spec_book_level(pre, o.side, o.price), o.quantity as int),
    )
}

/// Effect of one half of a trade on the order named `id`: unknown orders
/// are ignored; a known order is reduced by `q` (dying at 0), and its
/// level drops by the reduction actually applied.
pub open spec fn spec_trade_half(pre: BookView, post: BookView, id: u64, q: u32) -> bool {
    if !spec_has_order(pre.orders, id) {
        post == pre
    } else {
        let i = spec_order_index(pre.orders, id);
        let o = pre.orders[i];
        let red: int = if o.quantity <= q {
            o.quantity as int
        } else {
            q as int
        };
        &&& post.orders == (if o.quantity <= q {
            pre.orders.remove(i)
        } else {
            pre.orders.update(
                i,
                Order {
                    order_id: o.order_id,
                    price: o.price,
                    quantity: (o.quantity - q) as u32,
                    side: o.side,
                },
            )
        })
        &&& spec_side_updated(
            pre,
            post,
            o.side,
            o.price,
            spec_sat_sub(spec_book_level(pre, o.side, o.price), red),
        )
    }
}

/// Effect of a `Trade`: the buyer half is applied, and the seller half on
/// top of its outcome.
pub open spec fn spec_trade_applied(pre: BookView, post: BookView, m: Trade) -> bool {
    exists|mid: BookView|
        #[trigger] spec_trade_half(pre, mid, m.buyer_order_id, m.quantity)
            && spec_trade_half(mid, post, m.seller_order_id, m.quantity)
}

/// The quantity a snapshot installs at price `p`: that of the last level
/// entry at `p` with positive quantity, or 0 when there is none
/// (zero-quantity entries are skipped, later entries win).
pub open spec fn spec_snap_qty(levels: Seq<SnapshotLevel>, p: u64) -> int
    decreases levels.len(),
{
    if levels.len() == 0 {
        0
    } else if levels.last().price == p && levels.last().quantity > 0 {
        levels.last().quantity as int
    } else {
        spec_snap_qty(levels.drop_last(), p)
    }
}

/// Effect of a snapshot: the order table is emptied and each ladder holds
/// exactly the snapshot's positive levels.
pub open spec fn spec_snapshot_applied(post: BookView, snap: SnapshotView) -> bool {
    &&& post.orders == Seq::<Order>::empty()
    &&& forall|x: u64|
        #[trigger] spec_level_qty(post.bids, x) == spec_snap_qty(snap.bid_levels, x)
    &&& forall|x: u64|
        #[trigger] spec_level_qty(post.asks, x) == spec_snap_qty(snap.ask_levels, x)
}

/// Full contract of `OrderBook::apply_message`: for every message kind,
/// either the exact new state, or the exact error with the state
/// unchanged.
pub open spec fn spec_apply_rel(
    pre: BookView,
    post: BookView,
    m: MessageView,
    r: Result<(), BookError>,
) -> bool {
    match m {
        MessageView::AddOrder(a) => if spec_has_order(pre.orders, a.order_id) {
            r == Err::<(), BookError>(BookError::DuplicateOrder) && post == pre
        } else {
            match spec_side_of(a.side) {
                None => r == Err::<(), BookError>(BookError::InvalidSide) && post == pre,
                Some(s) => r == Ok::<(), BookError>(()) && spec_add_applied(pre, post, a, s),
            }
        },
        MessageView::ModifyOrder(mm) => if !spec_has_order(pre.orders, mm.order_id) {
            r == Err::<(), BookError>(BookError::UnknownOrder) && post == pre
        } else {
            r == Ok::<(), BookError>(()) && spec_modify_applied(pre, post, mm)
        },
        MessageView::DeleteOrder(d) => if !spec_has_order(pre.orders, d.order_id) {
            r == Err::<(), BookError>(BookError::UnknownOrder) && post == pre
        } else {
            r == Ok::<(), BookError>(()) && spec_delete_applied(pre, post, d.order_id)
        },
        MessageView::Trade(t) => r == Ok::<(), BookError>(()) && spec_trade_applied(
            pre,
            post,
            t,
        ),
        MessageView::Snapshot(sv) => r == Ok::<(), BookError>(()) && spec_snapshot_applied(
            post,
            sv,
        ),
    }
}

/// Top levels of both sides: bids best (highest) first, asks best
/// (lowest) first.
#[derive(Debug, Clone)]
pub struct BookDepth {
    pub bids: Vec<(u64, u32)>,
    pub asks: Vec<(u64, u32)>,
}

/// Best bid: the last (highest-priced) entry of the bid ladder.
pub open spec fn spec_best_bid(v: BookView) -> Option<(u64, u32)> {
    if v.bids.len() == 0 {
        None
    } else {
        Some(v.bids.last())
    }
}

/// Best ask: the first (lowest-priced) entry of the ask ladder.
pub open spec fn spec_best_ask(v: BookView) -> Option<(u64, u32)> {
    if v.asks.len() == 0 {
        None
    } else {
        Some(v.asks.first())
    }
}

/// Spread: `ask - bid` exactly when both sides are populated and the
/// best bid lies strictly below the best ask.
pub open spec fn spec_spread(v: BookView) -> Option<u64> {
    match (spec_best_bid(v), spec_best_ask(v)) {
        (Some(b), Some(a)) => if b.0 < a.0 {
            Some((a.0 - b.0) as u64)
        } else {
            None
        },
        _ => None,
    }
}

/// Price-level book: one ladder per side plus the table of live orders.
#[derive(Debug, Clone)]
pub struct OrderBook {
    bids: Vec<(u64, u32)>,
    asks: Vec<(u64, u32)>,
    orders: Vec<Order>,
}

impl View for OrderBook {
    type V = BookView;

    closed spec fn view(&self) -> BookView {
        BookView { bids: self.bids@, asks: self.asks@, orders: self.orders@ }
    }
}

/// Index of the first (and, with unique ids, only) order carrying `id`.
fn find_order(orders: &Vec<Order>, id: u64) -> (r: Option<usize>)
    requires
        spec_orders_unique(orders@),
    ensures
        (match r {
            Some(i) => i < orders@.len() && orders@[i as int].order_id == id
                && spec_has_order(orders@, id) && spec_order_index(orders@, id) == i,
            None => !spec_has_order(orders@, id),
        }),
{
    let n = orders.len();
    let mut i: usize = 0;
    while i < n
        invariant
            0 <= i <= n,
            n == orders@.len(),
            spec_orders_unique(orders@),
            forall|j: int| 0 <= j < i ==> (#[trigger] orders@[j]).order_id != id,
        decreases n - i,
    {
        if orders[i].order_id == id {
            proof {
                assert(spec_has_order(orders@, id));
                let k = spec_order_index(orders@, id);
                assert(0 <= k < orders@.len() && orders@[k].order_id == id);
                if k != i {
                    assert(orders@[k].order_id != orders@[i as int].order_id);
                }
            }
            return Some(i);
        }
        i = i + 1;
    }
    None
}

impl OrderBook {
    /// A well-formed book.
    pub open spec fn wf(&self) -> bool {
        spec_book_wf(self@)
    }

    /// An empty book: no levels on either side, no live orders.
    pub fn new() -> (r: Self)
        ensures
            r.wf(),
            r@.bids == Seq::<(u64, u32)>::empty(),
            r@.asks == Seq::<(u64, u32)>::empty(),
            r@.orders == Seq::<Order>::empty(),
    {
        OrderBook { bids: Vec::new(), asks: Vec::new(), orders: Vec::new() }
    }

    /// Apply a decoded message to the book.
    ///
    /// The outcome — new state or rejection — is exactly
    /// `spec_apply_rel`; on rejection the book is unchanged.
    pub fn apply_message(&mut self, msg: &MessageRef) -> (r: Result<(), BookError>)
        requires
            old(self).wf(),
        ensures
            final(self).wf(),
            spec_apply_rel(old(self)@, final(self)@, msg@, r),
    {
        match msg {
            MessageRef::AddOrder(m) => self.apply_add(m),
            MessageRef::ModifyOrder(m) => self.apply_modify(m),
            MessageRef::DeleteOrder(m) => self.apply_delete_id(m.order_id),
            MessageRef::Trade(m) => {
                let ghost pre = self@;
                self.trade_half(m.buyer_order_id, m.quantity);
                let ghost mid = self@;
                self.trade_half(m.seller_order_id, m.quantity);
                proof {
                    assert(spec_trade_half(pre, mid, m.buyer_order_id, m.quantity));
                }
                Ok(())
            },
            MessageRef::Snapshot(snap) => {
                self.apply_snapshot_levels(&snap.bid_levels, &snap.ask_levels);
                Ok(())
            },
        }
    }

    /// Insert a new order, rejecting duplicate ids and, for fresh ids,
    /// invalid side bytes — in that order.
    fn apply_add(&mut self, m: &AddOrder) -> (r: Result<(), BookError>)
        requires
            old(self).wf(),
        ensures
            final(self).wf(),
            spec_apply_rel(old(self)@, final(self)@, MessageView::AddOrder(*m), r),
    {
        if find_order(&self.orders, m.order_id).is_some() {
            return Err(BookError::DuplicateOrder);
        }
        let side = match Side::from_u8(m.side) {
            Some(s) => s,
            None => {
                return Err(BookError::InvalidSide);
            },
        };
        let order = Order {
            order_id: m.order_id,
            price: m.price,
            quantity: m.quantity,
            side,
        };
        match side {
            Side::Bid => levels_add(&mut self.bids, m.price, m.quantity),
            Side::Ask => levels_add(&mut self.asks, m.price, m.quantity),
        }
        self.orders.push(order);
        Ok(())
    }

    /// Change the quantity of a live order, rejecting unknown ids.
    fn apply_modify(&mut self, m: &ModifyOrder) -> (r: Result<(), BookError>)
        requires
            old(self).wf(),
        ensures
            final(self).wf(),
            spec_apply_rel(old(self)@, final(self)@, MessageView::ModifyOrder(*m), r),
    {
        let idx = match find_order(&self.orders, m.order_id) {
            Some(i) => i,
            None => {
                return Err(BookError::UnknownOrder);
            },
        };
        let o = self.orders[idx];
        proof {
            lemma_level_qty_bounds(
                match o.side {
                    Side::Bid => self@.bids,
                    Side::Ask => self@.asks,
                },
                o.price,
            );
        }
        match o.side {
            Side::Bid => levels_retune(&mut self.bids, o.price, o.quantity, m.new_quantity),
            Side::Ask => levels_retune(&mut self.asks, o.price, o.quantity, m.new_quantity),
        }
        if m.new_quantity == 0 {
            self.orders.remove(idx);
        } else {
            self.orders.set(
                idx,
                Order {
                    order_id: o.order_id,
                    price: o.price,
                    quantity: m.new_quantity,
                    side: o.side,
                },
            );
        }
        proof {
            lemma_orders_unique_edit(old(self)@.orders, self@.orders, idx as int);
        }
        Ok(())
    }

    /// Remove a live order, rejecting unknown ids.
    fn apply_delete_id(&mut self, id: u64) -> (r: Result<(), BookError>)
        requires
            old(self).wf(),
        ensures
            final(self).wf(),
            (if spec_has_order(old(self)@.orders, id) {
                r == Ok::<(), BookError>(()) && spec_delete_applied(
                    old(self)@,
                    final(self)@,
                    id,
                )
            } else {
                r == Err::<(), BookError>(BookError::UnknownOrder) && final(self)@ == old(
                    self,
                )@
            }),
    {
        let idx = match find_order(&self.orders, id) {
            Some(i) => i,
            None => {
                return Err(BookError::UnknownOrder);
            },
        };
        let o = self.orders[idx];
        match o.side {
            Side::Bid => levels_sub(&mut self.bids, o.price, o.quantity),
            Side::Ask => levels_sub(&mut self.asks, o.price, o.quantity),
        }
        self.orders.remove(idx);
        proof {
            lemma_orders_unique_edit(old(self)@.orders, self@.orders, idx as int);
        }
        Ok(())
    }

    /// Apply one side of a trade: reduce the named order by `q` — it dies
    /// at 0 — and its level with it; unknown ids are silently ignored.
    fn trade_half(&mut self, id: u64, q: u32)
        requires
            old(self).wf(),
        ensures
            final(self).wf(),
            spec_trade_half(old(self)@, final(self)@, id, q),
    {
        let idx = match find_order(&self.orders, id) {
            Some(i) => i,
            None => {
                return ;
            },
        };
        let o = self.orders[idx];
        let red = if o.quantity <= q {
            o.quantity
        } else {
            q
        };
        match o.side {
            Side::Bid => levels_sub(&mut self.bids, o.price, red),
            Side::Ask => levels_sub(&mut self.asks, o.price, red),
        }
        if o.quantity <= q {
            self.orders.remove(idx);
        } else {
            self.orders.set(
                idx,
                Order {
                    order_id: o.order_id,
                    price: o.price,
                    quantity: o.quantity - q,
                    side: o.side,
                },
            );
        }
        proof {
            lemma_orders_unique_edit(old(self)@.orders, self@.orders, idx as int);
        }
    }

    /// Rebuild one ladder from snapshot levels: positive quantities are
    /// installed in turn (later entries at a price win), zero quantities
    /// are skipped.
    fn build_side(levels: &Vec<SnapshotLevel>) -> (r: Vec<(u64, u32)>)
        ensures
            spec_levels_wf(r@),
            forall|x: u64| #[trigger] spec_level_qty(r@, x) == spec_snap_qty(levels@, x),
    {
        let mut out: Vec<(u64, u32)> = Vec::new();
        let n = levels.len();
        let mut i: usize = 0;
        proof {
            assert forall|x: u64| #[trigger] spec_level_qty(out@, x) == spec_snap_qty(
                levels@.take(0),
                x,
            ) by {
                assert(levels@.take(0).len() == 0);
            }
        }
        while i < n
            invariant
                0 <= i <= n,
                n == levels@.len(),
                spec_levels_wf(out@),
                forall|x: u64|
                    #[trigger] spec_level_qty(out@, x) == spec_snap_qty(levels@.take(i as int), x),
            decreases n - i,
        {
            let level = levels[i];
            if level.quantity > 0 {
                levels_set(&mut out, level.price, level.quantity);
            }
            proof {
                let t = levels@.take(i + 1);
                assert(t.last() == levels@[i as int]);
                assert(t.drop_last() =~= levels@.take(i as int));
            }
            i = i + 1;
        }
        proof {
            assert(levels@.take(n as int) =~= levels@);
        }
        out
    }

    /// Clear the book and install a snapshot's levels.
    fn apply_snapshot_levels(&mut self, bids: &Vec<SnapshotLevel>, asks: &Vec<SnapshotLevel>)
        ensures
            final(self).wf(),
            final(self)@.orders == Seq::<Order>::empty(),
            forall|x: u64|
                #[trigger] spec_level_qty(final(self)@.bids, x) == spec_snap_qty(bids@, x),
            forall|x: u64|
                #[trigger] spec_level_qty(final(self)@.asks, x) == spec_snap_qty(asks@, x),
    {
        self.bids = Self::build_side(bids);
        self.asks = Self::build_side(asks);
        self.orders = Vec::new();
    }

    /// Highest bid level: its price and aggregate quantity.
    ///
    /// The returned price carries a positive quantity and no level with a
    /// positive quantity lies above it; an empty bid side returns `None`.
    pub fn best_bid(&self) -> (r: Option<(u64, u32)>)
        requires
            self.wf(),
        ensures
            r == spec_best_bid(self@),
            (r matches Some(pq) ==> spec_level_qty(self@.bids, pq.0) == pq.1 && pq.1 > 0
                && forall|x: u64| spec_level_qty(self@.bids, x) > 0 ==> x <= pq.0),
            r is None ==> forall|x: u64| spec_level_qty(self@.bids, x) == 0,
    {
        let n = self.bids.len();
        if n == 0 {
            proof {
                assert forall|x: u64| spec_level_qty(self@.bids, x) == 0 by {
                    lemma_level_qty_absent(self@.bids, x);
                }
            }
            None
        } else {
            let best = self.bids[n - 1];
            proof {
                crate::levels::lemma_level_qty_at(self@.bids, n - 1);
                assert forall|x: u64| spec_level_qty(self@.bids, x) > 0 implies x
                    <= best.0 by {
                    lemma_level_qty_bounds(self@.bids, x);
                    let i = choose|i: int|
                        0 <= i < self@.bids.len() && (#[trigger] self@.bids[i]).0 == x;
                    assert(self@.bids[i].0 <= self@.bids[n - 1].0);
                }
            }
            Some(best)
        }
    }

    /// Lowest ask level: its price and aggregate quantity.
    ///
    /// The returned price carries a positive quantity and no level with a
    /// positive quantity lies below it; an empty ask side returns `None`.
    pub fn best_ask(&self) -> (r: Option<(u64, u32)>)
        requires
            self.wf(),
        ensures
            r == spec_best_ask(self@),
            (r matches Some(pq) ==> spec_level_qty(self@.asks, pq.0) == pq.1 && pq.1 > 0
                && forall|x: u64| spec_level_qty(self@.asks, x) > 0 ==> x >= pq.0),
            r is None ==> forall|x: u64| spec_level_qty(self@.asks, x) == 0,
    {
        let n = self.asks.len();
        if n == 0 {
            proof {
                assert forall|x: u64| spec_level_qty(self@.asks, x) == 0 by {
                    lemma_level_qty_absent(self@.asks, x);
                }
            }
            None
        } else {
            let best = self.asks[0];
            proof {
                crate::levels::lemma_level_qty_at(self@.asks, 0);
                assert forall|x: u64| spec_level_qty(self@.asks, x) > 0 implies x
                    >= best.0 by {
                    lemma_level_qty_bounds(self@.asks, x);
                    let i = choose|i: int|
                        0 <= i < self@.asks.len() && (#[trigger] self@.asks[i]).0 == x;
                    assert(self@.asks[0].0 <= self@.asks[i].0);
                }
            }
            Some(best)
        }
    }

    /// Best ask minus best bid, exactly when both sides are populated and
    /// the best bid lies strictly below the best ask; `None` otherwise —
    /// in particular on a crossed market.
    pub fn spread(&self) -> (r: Option<u64>)
        requires
            self.wf(),
        ensures
            r == spec_spread(self@),
    {
        match (self.best_bid(), self.best_ask()) {
            (Some((bid, _)), Some((ask, _))) => {
                if bid < ask {
                    Some(ask - bid)
                } else {
                    None
                }
            },
            _ => None,
        }
    }

    /// Top `n` levels of each side: bids from the highest price down,
    /// asks from the lowest price up.
    pub fn depth(&self, n: usize) -> (r: BookDepth)
        requires
            self.wf(),
        ensures
            r.bids@.len() == (if n <= self@.bids.len() {
                n as int
            } else {
                self@.bids.len() as int
            }),
            forall|i: int|
                0 <= i < r.bids@.len() ==> #[trigger] r.bids@[i] == self@.bids[self@.bids.len()
                    - 1 - i],
            r.asks@.len() == (if n <= self@.asks.len() {
                n as int
            } else {
                self@.asks.len() as int
            }),
            forall|i: int| 0 <= i < r.asks@.len() ==> #[trigger] r.asks@[i] == self@.asks[i],
    {
        let nb = self.bids.len();
        let take_b = if n <= nb {
            n
        } else {
            nb
        };
        let mut bids: Vec<(u64, u32)> = Vec::new();
        let mut i: usize = 0;
        while i < take_b
            invariant
                0 <= i <= take_b <= nb,
                nb == self@.bids.len(),
                bids@.len() == i,
                forall|k: int|
                    0 <= k < i ==> #[trigger] bids@[k] == self@.bids[nb - 1 - k],
            decreases take_b - i,
        {
            bids.push(self.bids[nb - 1 - i]);
            i = i + 1;
        }
        let na = self.asks.len();
        let take_a = if n <= na {
            n
        } else {
            na
        };
        let mut asks: Vec<(u64, u32)> = Vec::new();
        let mut j: usize = 0;
        while j < take_a
            invariant
                0 <= j <= take_a <= na,
                na == self@.asks.len(),
                asks@.len() == j,
                forall|k: int| 0 <= k < j ==> #[trigger] asks@[k] == self@.asks[k],
            decreases take_a - j,
        {
            asks.push(self.asks[j]);
            j = j + 1;
        }
        BookDepth { bids, asks }
    }

    /// Number of live orders.
    pub fn order_count(&self) -> (r: usize)
        ensures
            r == self@.orders.len(),
    {
        self.orders.len()
    }

    /// Number of populated bid price levels.
    pub fn bid_levels(&self) -> (r: usize)
        ensures
            r == self@.bids.len(),
    {
        self.bids.len()
    }

    /// Number of populated ask price levels.
    pub fn ask_levels(&self) -> (r: usize)
        ensures
            r == self@.asks.len(),
    {
        self.asks.len()
    }
}

/// Contribution of one live order to side `s` at price `p`: its quantity
/// where side and price match, 0 otherwise.
pub open spec fn spec_order_contrib(o: Order, s: Side, p: u64) -> int {
    if o.side == s && o.price == p {
        o.quantity as int
    } else {
        0
    }
}

/// Sum of the quantities of all live orders resting on side `s` at
/// price `p`.
pub open spec fn spec_side_qty(orders: Seq<Order>, s: Side, p: u64) -> int
    decreases orders.len(),
{
    if orders.len() == 0 {
        0
    } else {
        spec_order_contrib(orders[0], s, p) + spec_side_qty(orders.drop_first(), s, p)
    }
}

/// Order sums split over concatenation.
pub proof fn lemma_side_qty_split(a: Seq<Order>, b: Seq<Order>, s: Side, p: u64)
    ensures
        spec_side_qty(a + b, s, p) == spec_side_qty(a, s, p) + spec_side_qty(b, s, p),
    decreases a.len(),
{
    if a.len() == 0 {
        assert(a + b =~= b);
    } else {
        assert((a + b).drop_first() =~= a.drop_first() + b);
        lemma_side_qty_split(a.drop_first(), b, s, p);
    }
}

/// Order sums are never negative.
pub proof fn lemma_side_qty_nonneg(orders: Seq<Order>, s: Side, p: u64)
    ensures
        spec_side_qty(orders, s, p) >= 0,
    decreases orders.len(),
{
    if orders.len() > 0 {
        lemma_side_qty_nonneg(orders.drop_first(), s, p);
    }
}

/// An order sum splits around an index.
pub proof fn lemma_side_qty_decompose(orders: Seq<Order>, i: int, s: Side, p: u64)
    requires
        0 <= i < orders.len(),
    ensures
        spec_side_qty(orders, s, p) == spec_side_qty(orders.subrange(0, i), s, p)
            + spec_order_contrib(orders[i], s, p) + spec_side_qty(
            orders.subrange(i + 1, orders.len() as int),
            s,
            p,
        ),
{
    let pre = orders.subrange(0, i);
    let mid = seq![orders[i]];
    let post = orders.subrange(i + 1, orders.len() as int);
    assert(orders =~= pre + mid + post);
    lemma_side_qty_split(pre + mid, post, s, p);
    lemma_side_qty_split(pre, mid, s, p);
    assert(spec_side_qty(mid.drop_first(), s, p) == 0);
}

/// Appending an order adds its contribution to the sum.
pub proof fn lemma_side_qty_push(orders: Seq<Order>, o: Order, s: Side, p: u64)
    ensures
        spec_side_qty(orders.push(o), s, p) == spec_side_qty(orders, s, p)
            + spec_order_contrib(o, s, p),
{
    assert(orders.push(o) =~= orders + seq![o]);
    lemma_side_qty_split(orders, seq![o], s, p);
    assert(spec_side_qty(seq![o].drop_first(), s, p) == 0);
}

/// Removing an order takes its contribution out of the sum.
pub proof fn lemma_side_qty_remove(orders: Seq<Order>, i: int, s: Side, p: u64)
    requires
        0 <= i < orders.len(),
    ensures
        spec_side_qty(orders.remove(i), s, p) == spec_side_qty(orders, s, p)
            - spec_order_contrib(orders[i], s, p),
{
    lemma_side_qty_decompose(orders, i, s, p);
    assert(orders.remove(i) =~= orders.subrange(0, i) + orders.subrange(
        i + 1,
        orders.len() as int,
    ));
    lemma_side_qty_split(
        orders.subrange(0, i),
        orders.subrange(i + 1, orders.len() as int),
        s,
        p,
    );
}

/// Replacing an order swaps its contribution inside the sum.
pub proof fn lemma_side_qty_update(orders: Seq<Order>, i: int, o2: Order, s: Side, p: u64)
    requires
        0 <= i < orders.len(),
    ensures
        spec_side_qty(orders.update(i, o2), s, p) == spec_side_qty(orders, s, p)
            - spec_order_contrib(orders[i], s, p) + spec_order_contrib(o2, s, p),
{
    let t = orders.update(i, o2);
    lemma_side_qty_decompose(orders, i, s, p);
    lemma_side_qty_decompose(t, i, s, p);
    assert(t.subrange(0, i) =~= orders.subrange(0, i));
    assert(t.subrange(i + 1, t.len() as int) =~= orders.subrange(i + 1, orders.len() as int));
}

/// An order's contribution never exceeds its side's sum.
pub proof fn lemma_side_qty_member(orders: Seq<Order>, i: int, s: Side, p: u64)
    requires
        0 <= i < orders.len(),
    ensures
        spec_order_contrib(orders[i], s, p) <= spec_side_qty(orders, s, p),
{
    lemma_side_qty_decompose(orders, i, s, p);
    lemma_side_qty_nonneg(orders.subrange(0, i), s, p);
    lemma_side_qty_nonneg(orders.subrange(i + 1, orders.len() as int), s, p);
}

/// Event consistency — invariant I2, stated relative to a base (the
/// levels a snapshot installed; an empty base for a fresh book): on each
/// side, every price level carries the base quantity plus the summed
/// quantities of the live orders resting there.
pub open spec fn spec_consistent(
    v: BookView,
    base_bids: Seq<(u64, u32)>,
    base_asks: Seq<(u64, u32)>,
) -> bool {
    &&& forall|p: u64|
        #[trigger] spec_level_qty(v.bids, p) == spec_level_qty(base_bids, p) + spec_side_qty(
            v.orders,
            Side::Bid,
            p,
        )
    &&& forall|p: u64|
        #[trigger] spec_level_qty(v.asks, p) == spec_level_qty(base_asks, p) + spec_side_qty(
            v.orders,
            Side::Ask,
            p,
        )
}

/// The event is incremental — not a snapshot — and its level arithmetic
/// stays inside the u32 range, so no saturating step truncates.
///
/// For an `AddOrder` this bounds the grown level; for a `ModifyOrder`
/// the retuned level. Deletes and trades only subtract and need no
/// bound.
pub open spec fn spec_increment_fits(pre: BookView, m: MessageView) -> bool {
    match m {
        MessageView::AddOrder(a) => spec_has_order(pre.orders, a.order_id) || (
        match spec_side_of(a.side) {
            Some(s) => spec_book_level(pre, s, a.price) + a.quantity <= u32::MAX,
            None => true,
        }),
        MessageView::ModifyOrder(mm) => !spec_has_order(pre.orders, mm.order_id) || {
            let o = pre.orders[spec_order_index(pre.orders, mm.order_id)];
            let lvl = spec_book_level(pre, o.side, o.price);
            lvl - o.quantity + mm.new_quantity <= u32::MAX
        },
        MessageView::DeleteOrder(_) => true,
        MessageView::Trade(_) => true,
        MessageView::Snapshot(_) => false,
    }
}

/// One trade half keeps event consistency: the reduction leaves the
/// order table and its price level in step.
proof fn lemma_trade_half_keeps_consistency(
    pre: BookView,
    post: BookView,
    id: u64,
    q: u32,
    base_bids: Seq<(u64, u32)>,
    base_asks: Seq<(u64, u32)>,
)
    requires
        spec_trade_half(pre, post, id, q),
        spec_consistent(pre, base_bids, base_asks),
    ensures
        spec_consistent(post, base_bids, base_asks),
{
    if spec_has_order(pre.orders, id) {
        let i = spec_order_index(pre.orders, id);
        let o = pre.orders[i];
        let red: int = if o.quantity <= q {
            o.quantity as int
        } else {
            q as int
        };
        let o2 = Order {
            order_id: o.order_id,
            price: o.price,
            quantity: (o.quantity - q) as u32,
            side: o.side,
        };
        assert forall|s: Side, p: u64| true implies spec_side_qty(post.orders, s, p)
            == spec_side_qty(pre.orders, s, p) - (if s == o.side && p == o.price {
            red
        } else {
            0
        }) by {
            if o.quantity <= q {
                lemma_side_qty_remove(pre.orders, i, s, p);
            } else {
                lemma_side_qty_update(pre.orders, i, o2, s, p);
            }
        }
        assert forall|p: u64|
            #[trigger] spec_level_qty(post.bids, p) == spec_level_qty(base_bids, p)
                + spec_side_qty(post.orders, Side::Bid, p) by {
            assert(spec_book_level(post, o.side, p) == spec_level_qty(
                match o.side {
                    Side::Bid => post.bids,
                    Side::Ask => post.asks,
                },
                p,
            ));
            lemma_side_qty_member(pre.orders, i, o.side, o.price);
            lemma_level_qty_nonneg(base_bids, p);
            lemma_side_qty_nonneg(pre.orders, Side::Bid, p);
            assert(spec_book_level(pre, Side::Bid, p) == spec_level_qty(pre.bids, p));
            assert(spec_book_level(post, Side::Bid, p) == spec_level_qty(post.bids, p));
        }
        assert forall|p: u64|
            #[trigger] spec_level_qty(post.asks, p) == spec_level_qty(base_asks, p)
                + spec_side_qty(post.orders, Side::Ask, p) by {
            assert(spec_book_level(post, o.side, p) == spec_level_qty(
                match o.side {
                    Side::Bid => post.bids,
                    Side::Ask => post.asks,
                },
                p,
            ));
            lemma_side_qty_member(pre.orders, i, o.side, o.price);
            lemma_level_qty_nonneg(base_asks, p);
            lemma_side_qty_nonneg(pre.orders, Side::Ask, p);
            assert(spec_book_level(pre, Side::Ask, p) == spec_level_qty(pre.asks, p));
            assert(spec_book_level(post, Side::Ask, p) == spec_level_qty(post.asks, p));
        }
    }
}

/// Applying any incremental event — add, modify, delete or trade, taken
/// or rejected — preserves event consistency, as long as the event's
/// level arithmetic does not saturate (`spec_increment_fits`).
///
/// Together with the books's well-formedness (positive levels, unique
/// ids, one side per order — which `apply_message` maintains outright)
/// this is the per-event invariant of a stream of incremental updates:
/// it holds of a fresh book with an empty base and is carried from event
/// to event.
pub proof fn lemma_apply_preserves_consistency(
    pre: BookView,
    post: BookView,
    m: MessageView,
    r: Result<(), BookError>,
    base_bids: Seq<(u64, u32)>,
    base_asks: Seq<(u64, u32)>,
)
    requires
        spec_apply_rel(pre, post, m, r),
        spec_consistent(pre, base_bids, base_asks),
        spec_increment_fits(pre, m),
    ensures
        spec_consistent(post, base_bids, base_asks),
{
    match m {
        MessageView::AddOrder(a) => {
            match spec_side_of(a.side) {
                None => {},
                Some(s) => {
                    if !spec_has_order(pre.orders, a.order_id) {
                        let newo = Order {
                            order_id: a.order_id,
                            price: a.price,
                            quantity: a.quantity,
                            side: s,
                        };
                        assert forall|sd: Side, p: u64| true implies spec_side_qty(
                            post.orders,
                            sd,
                            p,
                        ) == spec_side_qty(pre.orders, sd, p) + spec_order_contrib(
                            newo,
                            sd,
                            p,
                        ) by {
                            lemma_side_qty_push(pre.orders, newo, sd, p);
                        }
                        assert forall|p: u64|
                            #[trigger] spec_level_qty(post.bids, p) == spec_level_qty(
                                base_bids,
                                p,
                            ) + spec_side_qty(post.orders, Side::Bid, p) by {
                            assert(spec_book_level(post, s, p) == spec_level_qty(
                                match s {
                                    Side::Bid => post.bids,
                                    Side::Ask => post.asks,
                                },
                                p,
                            ));
                            assert(spec_book_level(pre, Side::Bid, p) == spec_level_qty(
                                pre.bids,
                                p,
                            ));
                            assert(spec_book_level(post, Side::Bid, p) == spec_level_qty(
                                post.bids,
                                p,
                            ));
                        }
                        assert forall|p: u64|
                            #[trigger] spec_level_qty(post.asks, p) == spec_level_qty(
                                base_asks,
                                p,
                            ) + spec_side_qty(post.orders, Side::Ask, p) by {
                            assert(spec_book_level(post, s, p) == spec_level_qty(
                                match s {
                                    Side::Bid => post.bids,
                                    Side::Ask => post.asks,
                                },
                                p,
                            ));
                            assert(spec_book_level(pre, Side::Ask, p) == spec_level_qty(
                                pre.asks,
                                p,
                            ));
                            assert(spec_book_level(post, Side::Ask, p) == spec_level_qty(
                                post.asks,
                                p,
                            ));
                        }
                    }
                },
            }
        },
        MessageView::ModifyOrder(mm) => {
            if spec_has_order(pre.orders, mm.order_id) {
                let i = spec_order_index(pre.orders, mm.order_id);
                let o = pre.orders[i];
                let o2 = Order {
                    order_id: o.order_id,
                    price: o.price,
                    quantity: mm.new_quantity,
                    side: o.side,
                };
                assert forall|sd: Side, p: u64| true implies spec_side_qty(post.orders, sd, p)
                    == spec_side_qty(pre.orders, sd, p) - spec_order_contrib(o, sd, p) + (
                if mm.new_quantity == 0 {
                    0
                } else {
                    spec_order_contrib(o2, sd, p)
                }) by {
                    if mm.new_quantity == 0 {
                        lemma_side_qty_remove(pre.orders, i, sd, p);
                    } else {
                        lemma_side_qty_update(pre.orders, i, o2, sd, p);
                    }
                }
                assert forall|p: u64|
                    #[trigger] spec_level_qty(post.bids, p) == spec_level_qty(base_bids, p)
                        + spec_side_qty(post.orders, Side::Bid, p) by {
                    assert(spec_book_level(post, o.side, p) == spec_level_qty(
                        match o.side {
                            Side::Bid => post.bids,
                            Side::Ask => post.asks,
                        },
                        p,
                    ));
                    lemma_side_qty_member(pre.orders, i, o.side, o.price);
                    lemma_level_qty_nonneg(base_bids, p);
                    lemma_side_qty_nonneg(pre.orders, Side::Bid, p);
                    assert(spec_book_level(pre, Side::Bid, p) == spec_level_qty(pre.bids, p));
                    assert(spec_book_level(post, Side::Bid, p) == spec_level_qty(
                        post.bids,
                        p,
                    ));
                }
                assert forall|p: u64|
                    #[trigger] spec_level_qty(post.asks, p) == spec_level_qty(base_asks, p)
                        + spec_side_qty(post.orders, Side::Ask, p) by {
                    assert(spec_book_level(post, o.side, p) == spec_level_qty(
                        match o.side {
                            Side::Bid => post.bids,
                            Side::Ask => post.asks,
                        },
                        p,
                    ));
                    lemma_side_qty_member(pre.orders, i, o.side, o.price);
                    lemma_level_qty_nonneg(base_asks, p);
                    lemma_side_qty_nonneg(pre.orders, Side::Ask, p);
                    assert(spec_book_level(pre, Side::Ask, p) == spec_level_qty(pre.asks, p));
                    assert(spec_book_level(post, Side::Ask, p) == spec_level_qty(
                        post.asks,
                        p,
                    ));
                }
            }
        },
        MessageView::DeleteOrder(d) => {
            if spec_has_order(pre.orders, d.order_id) {
                let i = spec_order_index(pre.orders, d.order_id);
                let o = pre.orders[i];
                assert(spec_trade_half(pre, post, d.order_id, o.quantity));
                lemma_trade_half_keeps_consistency(
                    pre,
                    post,
                    d.order_id,
                    o.quantity,
                    base_bids,
                    base_asks,
                );
            }
        },
        MessageView::Trade(t) => {
            let mid = choose|mid: BookView|
                #[trigger] spec_trade_half(pre, mid, t.buyer_order_id, t.quantity)
                    && spec_trade_half(mid, post, t.seller_order_id, t.quantity);
            lemma_trade_half_keeps_consistency(
                pre,
                mid,
                t.buyer_order_id,
                t.quantity,
                base_bids,
                base_asks,
            );
            lemma_trade_half_keeps_consistency(
                mid,
                post,
                t.seller_order_id,
                t.quantity,
                base_bids,
                base_asks,
            );
        },
        MessageView::Snapshot(_) => {},
    }
}

/// Event consistency holds at step `i` of a chain of incremental
/// events.
proof fn lemma_stream_prefix_consistent(
    states: Seq<BookView>,
    msgs: Seq<MessageView>,
    rs: Seq<Result<(), BookError>>,
    base_bids: Seq<(u64, u32)>,
    base_asks: Seq<(u64, u32)>,
    i: int,
)
    requires
        states.len() == msgs.len() + 1,
        rs.len() == msgs.len(),
        spec_consistent(states[0], base_bids, base_asks),
        forall|k: int|
            0 <= k < msgs.len() ==> spec_apply_rel(
                #[trigger] states[k],
                states[k + 1],
                msgs[k],
                rs[k],
            ),
        forall|k: int|
            0 <= k < msgs.len() ==> spec_increment_fits(#[trigger] states[k], msgs[k]),
        0 <= i < states.len(),
    ensures
        spec_consistent(states[i], base_bids, base_asks),
    decreases i,
{
    if i > 0 {
        lemma_stream_prefix_consistent(states, msgs, rs, base_bids, base_asks, i - 1);
        lemma_apply_preserves_consistency(
            states[i - 1],
            states[i],
            msgs[i - 1],
            rs[i - 1],
            base_bids,
            base_asks,
        );
    }
}

/// Event consistency along a whole stream: for any chain of incremental
/// events — taken or rejected, each within `spec_increment_fits` —
/// starting from a consistent book, every intermediate state is
/// consistent. With an empty base this is the invariant of a stream of
/// events on a fresh book; with a snapshot's levels as base, of a stream
/// applied after that snapshot.
pub proof fn lemma_stream_preserves_consistency(
    states: Seq<BookView>,
    msgs: Seq<MessageView>,
    rs: Seq<Result<(), BookError>>,
    base_bids: Seq<(u64, u32)>,
    base_asks: Seq<(u64, u32)>,
)
    requires
        states.len() == msgs.len() + 1,
        rs.len() == msgs.len(),
        spec_consistent(states[0], base_bids, base_asks),
        forall|k: int|
            0 <= k < msgs.len() ==> spec_apply_rel(
                #[trigger] states[k],
                states[k + 1],
                msgs[k],
                rs[k],
            ),
        forall|k: int|
            0 <= k < msgs.len() ==> spec_increment_fits(#[trigger] states[k], msgs[k]),
    ensures
        forall|i: int|
            0 <= i < states.len() ==> spec_consistent(
                #[trigger] states[i],
                base_bids,
                base_asks,
            ),
{
    assert forall|i: int| 0 <= i < states.len() implies spec_consistent(
        #[trigger] states[i],
        base_bids,
        base_asks,
    ) by {
        lemma_stream_prefix_consistent(states, msgs, rs, base_bids, base_asks, i);
    }
}

/// A snapshot re-establishes event consistency relative to the levels it
/// itself installed: the order table is empty, so each level carries its
/// own base exactly (invariant I6).
pub proof fn lemma_snapshot_establishes_consistency(post: BookView, snap: SnapshotView)
    requires
        spec_snapshot_applied(post, snap),
    ensures
        spec_consistent(post, post.bids, post.asks),
{
}

/// A fresh book is consistent relative to the empty base.
pub proof fn lemma_empty_book_consistent(v: BookView)
    requires
        v.bids == Seq::<(u64, u32)>::empty(),
        v.asks == Seq::<(u64, u32)>::empty(),
        v.orders == Seq::<Order>::empty(),
    ensures
        spec_consistent(v, Seq::<(u64, u32)>::empty(), Seq::<(u64, u32)>::empty()),
{
}

/// Removing an entry, or replacing one without changing its id, keeps
/// order ids unique.
proof fn lemma_orders_unique_edit(pre: Seq<Order>, post: Seq<Order>, i: int)
    requires
        spec_orders_unique(pre),
        0 <= i < pre.len(),
        post == pre.remove(i) || (post.len() == pre.len() && forall|k: int|
            0 <= k < pre.len() ==> (#[trigger] post[k]).order_id == pre[k].order_id),
    ensures
        spec_orders_unique(post),
{
    if post == pre.remove(i) {
        assert forall|k: int, l: int| 0 <= k < l < post.len() implies (
        #[trigger] post[k]).order_id != (#[trigger] post[l]).order_id by {
            let k0 = if k < i {
                k
            } else {
                k + 1
            };
            let l0 = if l < i {
                l
            } else {
                l + 1
            };
            assert(post[k] == pre[k0] && post[l] == pre[l0]);
        }
    }
}

} // verus!
