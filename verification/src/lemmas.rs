use vstd::prelude::*;

use crate::book::{Order, PriceLevel, Transaction};
use crate::model::{
    asks_stream, bids_stream, level_trimmed, level_trimmed_at, level_wf, match_asks_rem,
    match_bids_rem, match_stream, order_minus, order_ok, orders_qty, side_eaten_back,
    side_eaten_back_at, side_eaten_front, side_eaten_front_at, side_has_id, side_ids_lt,
    side_ids_unique, side_inserted_at, side_qty, side_wf, sides_ids_disjoint, trades_qty,
};

verus! {

pub proof fn lemma_orders_qty_nonneg(s: Seq<Order>)
    ensures
        orders_qty(s) >= 0,
    decreases s.len(),
{
    if s.len() > 0 {
        lemma_orders_qty_nonneg(s.drop_last());
    }
}

pub proof fn lemma_side_qty_nonneg(side: Seq<PriceLevel>)
    ensures
        side_qty(side) >= 0,
    decreases side.len(),
{
    if side.len() > 0 {
        lemma_side_qty_nonneg(side.drop_last());
        lemma_orders_qty_nonneg(side.last().orders@);
    }
}

pub proof fn lemma_orders_qty_remove(s: Seq<Order>, k: int)
    requires
        0 <= k < s.len(),
    ensures
        orders_qty(s.remove(k)) == orders_qty(s) - s[k].quantity,
    decreases s.len(),
{
    if k == s.len() - 1 {
        assert(s.remove(k) =~= s.drop_last());
    } else {
        lemma_orders_qty_remove(s.drop_last(), k);
        assert(s.remove(k).drop_last() =~= s.drop_last().remove(k));
        assert(s.remove(k).last() == s.last());
    }
}

pub proof fn lemma_orders_qty_insert(s: Seq<Order>, k: int, o: Order)
    requires
        0 <= k <= s.len(),
    ensures
        orders_qty(s.insert(k, o)) == orders_qty(s) + o.quantity,
    decreases s.len(),
{
    if k == s.len() {
        assert(s.insert(k, o).drop_last() =~= s);
        assert(s.insert(k, o).last() == o);
    } else {
        lemma_orders_qty_insert(s.drop_last(), k, o);
        assert(s.insert(k, o).drop_last() =~= s.drop_last().insert(k, o));
        assert(s.insert(k, o).last() == s.last());
    }
}

pub proof fn lemma_side_qty_remove(side: Seq<PriceLevel>, i: int)
    requires
        0 <= i < side.len(),
    ensures
        side_qty(side.remove(i)) == side_qty(side) - orders_qty(side[i].orders@),
    decreases side.len(),
{
    if i == side.len() - 1 {
        assert(side.remove(i) =~= side.drop_last());
    } else {
        lemma_side_qty_remove(side.drop_last(), i);
        assert(side.remove(i).drop_last() =~= side.drop_last().remove(i));
        assert(side.remove(i).last() == side.last());
    }
}

pub proof fn lemma_side_qty_insert(side: Seq<PriceLevel>, i: int, l: PriceLevel)
    requires
        0 <= i <= side.len(),
    ensures
        side_qty(side.insert(i, l)) == side_qty(side) + orders_qty(l.orders@),
    decreases side.len(),
{
    if i == side.len() {
        assert(side.insert(i, l).drop_last() =~= side);
        assert(side.insert(i, l).last() == l);
    } else {
        lemma_side_qty_insert(side.drop_last(), i, l);
        assert(side.insert(i, l).drop_last() =~= side.drop_last().insert(i, l));
        assert(side.insert(i, l).last() == side.last());
    }
}

pub proof fn lemma_side_qty_update(side: Seq<PriceLevel>, i: int, l: PriceLevel)
    requires
        0 <= i < side.len(),
    ensures
        side_qty(side.update(i, l)) == side_qty(side) - orders_qty(side[i].orders@) + orders_qty(
            l.orders@,
        ),
    decreases side.len(),
{
    if i == side.len() - 1 {
        assert(side.update(i, l).drop_last() =~= side.drop_last());
        assert(side.update(i, l).last() == l);
    } else {
        lemma_side_qty_update(side.drop_last(), i, l);
        assert(side.update(i, l).drop_last() =~= side.drop_last().update(i, l));
        assert(side.update(i, l).last() == side.last());
    }
}

pub proof fn lemma_trades_qty_push(ts: Seq<Transaction>, t: Transaction)
    ensures
        trades_qty(ts.push(t)) == trades_qty(ts) + t.quantity,
{
    assert(ts.push(t).drop_last() =~= ts);
    assert(ts.push(t).last() == t);
}

/// An id at or above the bound rests nowhere on a side whose ids are all
/// below it.
pub proof fn lemma_side_ids_lt_not_has(side: Seq<PriceLevel>, n: u128, id: u128)
    requires
        side_ids_lt(side, n),
        id >= n,
    ensures
        !side_has_id(side, id),
{
    if side_has_id(side, id) {
        let (i, k) = choose|i: int, k: int|
            0 <= i < side.len() && 0 <= k < side[i].orders@.len()
                && (#[trigger] side[i].orders@[k]).id == id;
        assert(side[i].orders@[k].id < n);
    }
}

/// A side shrinks (pointwise on ids) on both sides of the book: disjointness
/// is preserved.
pub proof fn lemma_disjoint_shrunk(
    bids0: Seq<PriceLevel>,
    bids1: Seq<PriceLevel>,
    asks0: Seq<PriceLevel>,
    asks1: Seq<PriceLevel>,
)
    requires
        sides_ids_disjoint(bids0, asks0),
        forall|x: u128| #[trigger] side_has_id(bids1, x) ==> side_has_id(bids0, x),
        forall|x: u128| #[trigger] side_has_id(asks1, x) ==> side_has_id(asks0, x),
    ensures
        sides_ids_disjoint(bids1, asks1),
{
    assert forall|id: u128| #[trigger] side_has_id(bids1, id) implies !side_has_id(
        asks1,
        id,
    ) by {
        assert(side_has_id(bids0, id));
        if side_has_id(asks1, id) {
            assert(side_has_id(asks0, id));
        }
    }
}

/// One level of a side is trimmed from the front: its first `dk` orders are
/// gone and the new head may carry a reduced (still positive) quantity. All
/// well-formedness predicates carry over, and no id appears that was not
/// there before.
pub proof fn lemma_side_level_shrunk(
    s: Seq<PriceLevel>,
    t: Seq<PriceLevel>,
    p: int,
    dk: int,
    is_buy: bool,
    n: u128,
)
    requires
        side_wf(s, is_buy),
        side_ids_unique(s),
        side_ids_lt(s, n),
        0 <= p < s.len(),
        t.len() == s.len(),
        forall|i: int| 0 <= i < t.len() && i != p ==> t[i] == s[i],
        t[p].price == s[p].price,
        0 <= dk,
        t[p].orders@.len() > 0,
        t[p].orders@.len() + dk == s[p].orders@.len(),
        forall|k: int|
            0 <= k < t[p].orders@.len() ==> {
                &&& (#[trigger] t[p].orders@[k]).id == s[p].orders@[k + dk].id
                &&& t[p].orders@[k].price == s[p].orders@[k + dk].price
                &&& t[p].orders@[k].buy_order == s[p].orders@[k + dk].buy_order
                &&& t[p].orders@[k].quantity > 0
            },
    ensures
        side_wf(t, is_buy),
        side_ids_unique(t),
        side_ids_lt(t, n),
        forall|x: u128| #[trigger] side_has_id(t, x) ==> side_has_id(s, x),
{
    assert forall|i: int| 0 <= i < t.len() implies level_wf(#[trigger] t[i], is_buy) by {
        assert(level_wf(s[i], is_buy));
        if i == p {
            assert forall|k: int| 0 <= k < t[p].orders@.len() implies order_ok(
                #[trigger] t[p].orders@[k],
                t[p].price,
                is_buy,
            ) by {
                assert(order_ok(s[p].orders@[k + dk], s[p].price, is_buy));
            }
        }
    }
    assert forall|i: int, j: int| 0 <= i < j < t.len() implies (#[trigger] t[i]).price < (
    #[trigger] t[j]).price by {
        assert(t[i].price == s[i].price);
        assert(t[j].price == s[j].price);
    }
    assert forall|i: int, k: int|
        0 <= i < t.len() && 0 <= k < t[i].orders@.len() implies (#[trigger] t[i].orders@[k]).id
        < n by {
        if i == p {
            assert(s[p].orders@[k + dk].id < n);
        } else {
            assert(s[i].orders@[k].id < n);
        }
    }
    assert forall|i1: int, k1: int, i2: int, k2: int|
        0 <= i1 < t.len() && 0 <= k1 < t[i1].orders@.len() && 0 <= i2 < t.len()
            && 0 <= k2 < t[i2].orders@.len() && (i1 != i2 || k1 != k2) implies (
    #[trigger] t[i1].orders@[k1]).id != (#[trigger] t[i2].orders@[k2]).id by {
        let m1: int = if i1 == p {
            k1 + dk
        } else {
            k1
        };
        let m2: int = if i2 == p {
            k2 + dk
        } else {
            k2
        };
        assert(t[i1].orders@[k1].id == s[i1].orders@[m1].id);
        assert(t[i2].orders@[k2].id == s[i2].orders@[m2].id);
        assert(s[i1].orders@[m1].id != s[i2].orders@[m2].id);
    }
    assert forall|x: u128| #[trigger] side_has_id(t, x) implies side_has_id(s, x) by {
        let (i, k) = choose|i: int, k: int|
            0 <= i < t.len() && 0 <= k < t[i].orders@.len() && (#[trigger] t[i].orders@[k]).id
                == x;
        if i == p {
            assert(s[p].orders@[k + dk].id == x);
        } else {
            assert(s[i].orders@[k].id == x);
        }
    }
}

/// A bound on the ids of a side can only widen.
pub proof fn lemma_side_ids_lt_widen(side: Seq<PriceLevel>, n1: u128, n2: u128)
    requires
        side_ids_lt(side, n1),
        n1 <= n2,
    ensures
        side_ids_lt(side, n2),
{
    assert forall|i: int, k: int|
        0 <= i < side.len() && 0 <= k < side[i].orders@.len() implies (
    #[trigger] side[i].orders@[k]).id < n2 by {
        assert(side[i].orders@[k].id < n1);
    }
}

/// What holds of a side after a fresh order is queued at the tail of the
/// level at its price: well-formedness and id uniqueness carry over, exactly
/// the new id joins, the side's total quantity grows by the order's quantity,
/// and each end of the side keeps its level unless the new price passes it.
pub proof fn lemma_side_inserted_props(
    s: Seq<PriceLevel>,
    t: Seq<PriceLevel>,
    j: int,
    o: Order,
    is_buy: bool,
)
    requires
        side_wf(s, is_buy),
        side_ids_unique(s),
        !side_has_id(s, o.id),
        o.buy_order == is_buy,
        o.quantity > 0,
        side_inserted_at(s, t, j, o),
    ensures
        side_wf(t, is_buy),
        side_ids_unique(t),
        forall|x: u128| #[trigger] side_has_id(t, x) <==> side_has_id(s, x) || x == o.id,
        side_qty(t) == side_qty(s) + o.quantity,
        forall|m: u128| side_ids_lt(s, m) && o.id < m ==> #[trigger] side_ids_lt(t, m),
        t.len() > 0,
        (s.len() == 0 || s.last().price <= o.price) ==> t.last().price == o.price,
        (s.len() > 0 && s.last().price > o.price) ==> t.last() == s.last(),
        (s.len() == 0 || s[0].price >= o.price) ==> t[0].price == o.price,
        (s.len() > 0 && s[0].price < o.price) ==> t[0] == s[0],
{
    if t.len() == s.len() {
        // The order was appended to the existing level at its price.
        let ll = s[j].orders@.len() as int;
        assert(t[j].orders@ == s[j].orders@.push(o));
        assert forall|i: int| 0 <= i < t.len() implies level_wf(#[trigger] t[i], is_buy) by {
            assert(level_wf(s[i], is_buy));
            if i == j {
                assert forall|k: int| 0 <= k < t[j].orders@.len() implies order_ok(
                    #[trigger] t[j].orders@[k],
                    t[j].price,
                    is_buy,
                ) by {
                    if k < ll {
                        assert(t[j].orders@[k] == s[j].orders@[k]);
                        assert(order_ok(s[j].orders@[k], s[j].price, is_buy));
                    } else {
                        assert(t[j].orders@[k] == o);
                    }
                }
            }
        }
        assert forall|i1: int, i2: int| 0 <= i1 < i2 < t.len() implies (#[trigger] t[i1]).price < (
        #[trigger] t[i2]).price by {
            assert(t[i1].price == s[i1].price);
            assert(t[i2].price == s[i2].price);
        }
        assert forall|i1: int, k1: int, i2: int, k2: int|
            0 <= i1 < t.len() && 0 <= k1 < t[i1].orders@.len() && 0 <= i2 < t.len()
                && 0 <= k2 < t[i2].orders@.len() && (i1 != i2 || k1 != k2) implies (
        #[trigger] t[i1].orders@[k1]).id != (#[trigger] t[i2].orders@[k2]).id by {
            let new1 = i1 == j && k1 == ll;
            let new2 = i2 == j && k2 == ll;
            if new1 && !new2 {
                assert(t[i1].orders@[k1] == o);
                assert(t[i2].orders@[k2] == s[i2].orders@[k2]);
                if s[i2].orders@[k2].id == o.id {
                    assert(side_has_id(s, o.id));
                }
            } else if !new1 && new2 {
                assert(t[i2].orders@[k2] == o);
                assert(t[i1].orders@[k1] == s[i1].orders@[k1]);
                if s[i1].orders@[k1].id == o.id {
                    assert(side_has_id(s, o.id));
                }
            } else if !new1 && !new2 {
                assert(t[i1].orders@[k1] == s[i1].orders@[k1]);
                assert(t[i2].orders@[k2] == s[i2].orders@[k2]);
            }
        }
        assert forall|x: u128| #[trigger] side_has_id(t, x) implies side_has_id(s, x) || x
            == o.id by {
            let (i, k) = choose|i: int, k: int|
                0 <= i < t.len() && 0 <= k < t[i].orders@.len() && (#[trigger] t[i].orders@[k]).id
                    == x;
            if i == j && k == ll {
            } else {
                assert(t[i].orders@[k] == s[i].orders@[k]);
            }
        }
        assert forall|x: u128| side_has_id(s, x) || x == o.id implies #[trigger] side_has_id(
            t,
            x,
        ) by {
            if x == o.id {
                assert(t[j].orders@[ll] == o);
            } else {
                let (i, k) = choose|i: int, k: int|
                    0 <= i < s.len() && 0 <= k < s[i].orders@.len() && (
                    #[trigger] s[i].orders@[k]).id == x;
                assert(t[i].orders@[k] == s[i].orders@[k]);
            }
        }
        assert(t =~= s.update(j, t[j]));
        lemma_side_qty_update(s, j, t[j]);
        lemma_orders_qty_insert(s[j].orders@, ll, o);
        assert(s[j].orders@.push(o) =~= s[j].orders@.insert(ll, o));
        assert forall|m: u128| side_ids_lt(s, m) && o.id < m implies #[trigger] side_ids_lt(
            t,
            m,
        ) by {
            assert forall|i: int, k: int|
                0 <= i < t.len() && 0 <= k < t[i].orders@.len() implies (
            #[trigger] t[i].orders@[k]).id < m by {
                if i == j && k == ll {
                    assert(t[i].orders@[k] == o);
                } else {
                    assert(t[i].orders@[k] == s[i].orders@[k]);
                }
            }
        }
        if j < s.len() - 1 {
            assert(t.last() == s.last());
            assert(s[j].price < s.last().price);
        }
        if j > 0 {
            assert(t[0] == s[0]);
            assert(s[0].price < s[j].price);
        }
    } else {
        // A fresh one-order level was placed between its price neighbours.
        assert(t[j].orders@[0] == o);
        assert forall|i: int| 0 <= i < t.len() implies level_wf(#[trigger] t[i], is_buy) by {
            if i < j {
                assert(t[i] == s[i]);
                assert(level_wf(s[i], is_buy));
            } else if i > j {
                assert(t[i] == s[i - 1]);
                assert(level_wf(s[i - 1], is_buy));
            } else {
                assert forall|k: int| 0 <= k < t[j].orders@.len() implies order_ok(
                    #[trigger] t[j].orders@[k],
                    t[j].price,
                    is_buy,
                ) by {
                    assert(t[j].orders@[k] == o);
                }
            }
        }
        assert forall|i1: int, i2: int| 0 <= i1 < i2 < t.len() implies (#[trigger] t[i1]).price < (
        #[trigger] t[i2]).price by {
            if i1 == j {
                assert(t[i2] == s[i2 - 1]);
                assert(o.price < s[j].price);
                if i2 - 1 > j {
                    assert(s[j].price < s[i2 - 1].price);
                }
            } else if i2 == j {
                assert(t[i1] == s[i1]);
                assert(s[j - 1].price < o.price);
                if i1 < j - 1 {
                    assert(s[i1].price < s[j - 1].price);
                }
            } else {
                let m1: int = if i1 < j {
                    i1
                } else {
                    i1 - 1
                };
                let m2: int = if i2 < j {
                    i2
                } else {
                    i2 - 1
                };
                assert(t[i1] == s[m1]);
                assert(t[i2] == s[m2]);
                assert(s[m1].price < s[m2].price);
            }
        }
        assert forall|i1: int, k1: int, i2: int, k2: int|
            0 <= i1 < t.len() && 0 <= k1 < t[i1].orders@.len() && 0 <= i2 < t.len()
                && 0 <= k2 < t[i2].orders@.len() && (i1 != i2 || k1 != k2) implies (
        #[trigger] t[i1].orders@[k1]).id != (#[trigger] t[i2].orders@[k2]).id by {
            if i1 == j && i2 == j {
                assert(k1 == 0 && k2 == 0);
            } else if i1 == j {
                let m2: int = if i2 < j {
                    i2
                } else {
                    i2 - 1
                };
                assert(t[i1].orders@[k1] == o);
                assert(t[i2].orders@[k2] == s[m2].orders@[k2]);
                if s[m2].orders@[k2].id == o.id {
                    assert(side_has_id(s, o.id));
                }
            } else if i2 == j {
                let m1: int = if i1 < j {
                    i1
                } else {
                    i1 - 1
                };
                assert(t[i2].orders@[k2] == o);
                assert(t[i1].orders@[k1] == s[m1].orders@[k1]);
                if s[m1].orders@[k1].id == o.id {
                    assert(side_has_id(s, o.id));
                }
            } else {
                let m1: int = if i1 < j {
                    i1
                } else {
                    i1 - 1
                };
                let m2: int = if i2 < j {
                    i2
                } else {
                    i2 - 1
                };
                assert(t[i1].orders@[k1] == s[m1].orders@[k1]);
                assert(t[i2].orders@[k2] == s[m2].orders@[k2]);
                assert(s[m1].orders@[k1].id != s[m2].orders@[k2].id);
            }
        }
        assert forall|x: u128| #[trigger] side_has_id(t, x) implies side_has_id(s, x) || x
            == o.id by {
            let (i, k) = choose|i: int, k: int|
                0 <= i < t.len() && 0 <= k < t[i].orders@.len() && (#[trigger] t[i].orders@[k]).id
                    == x;
            if i != j {
                let m: int = if i < j {
                    i
                } else {
                    i - 1
                };
                assert(t[i].orders@[k] == s[m].orders@[k]);
            }
        }
        assert forall|x: u128| side_has_id(s, x) || x == o.id implies #[trigger] side_has_id(
            t,
            x,
        ) by {
            if x == o.id {
                assert(t[j].orders@[0] == o);
            } else {
                let (i, k) = choose|i: int, k: int|
                    0 <= i < s.len() && 0 <= k < s[i].orders@.len() && (
                    #[trigger] s[i].orders@[k]).id == x;
                let m: int = if i < j {
                    i
                } else {
                    i + 1
                };
                assert(t[m].orders@[k] == s[i].orders@[k]);
            }
        }
        assert(t =~= s.insert(j, t[j]));
        lemma_side_qty_insert(s, j, t[j]);
        assert(t[j].orders@.drop_last() =~= Seq::<Order>::empty());
        assert(orders_qty(Seq::<Order>::empty()) == 0);
        assert(t[j].orders@.last() == o);
        assert(orders_qty(t[j].orders@) == o.quantity as int);
        assert forall|m: u128| side_ids_lt(s, m) && o.id < m implies #[trigger] side_ids_lt(
            t,
            m,
        ) by {
            assert forall|i: int, k: int|
                0 <= i < t.len() && 0 <= k < t[i].orders@.len() implies (
            #[trigger] t[i].orders@[k]).id < m by {
                if i == j {
                    assert(t[i].orders@[k] == o);
                } else {
                    let mi: int = if i < j {
                        i
                    } else {
                        i - 1
                    };
                    assert(t[i].orders@[k] == s[mi].orders@[k]);
                }
            }
        }
        if j < s.len() {
            assert(t.last() == s[s.len() - 1]);
            assert(o.price < s[j].price);
            if j < s.len() - 1 {
                assert(s[j].price < s[s.len() - 1].price);
            }
        }
        if j > 0 {
            assert(t[0] == s[0]);
            assert(s[0].price <= s[j - 1].price);
        }
    }
}

/// A whole level disappears from a side: all well-formedness predicates carry
/// over, and no id appears that was not there before.
pub proof fn lemma_side_level_removed(s: Seq<PriceLevel>, p: int, is_buy: bool, n: u128)
    requires
        side_wf(s, is_buy),
        side_ids_unique(s),
        side_ids_lt(s, n),
        0 <= p < s.len(),
    ensures
        side_wf(s.remove(p), is_buy),
        side_ids_unique(s.remove(p)),
        side_ids_lt(s.remove(p), n),
        forall|x: u128| #[trigger] side_has_id(s.remove(p), x) ==> side_has_id(s, x),
{
    let t = s.remove(p);
    assert forall|i: int| 0 <= i < t.len() implies #[trigger] t[i] == s[if i < p {
        i
    } else {
        i + 1
    }] by {}
    assert forall|i: int| 0 <= i < t.len() implies level_wf(#[trigger] t[i], is_buy) by {
        let m: int = if i < p {
            i
        } else {
            i + 1
        };
        assert(level_wf(s[m], is_buy));
    }
    assert forall|i: int, j: int| 0 <= i < j < t.len() implies (#[trigger] t[i]).price < (
    #[trigger] t[j]).price by {
        let mi: int = if i < p {
            i
        } else {
            i + 1
        };
        let mj: int = if j < p {
            j
        } else {
            j + 1
        };
        assert(s[mi].price < s[mj].price);
    }
    assert forall|i: int, k: int|
        0 <= i < t.len() && 0 <= k < t[i].orders@.len() implies (#[trigger] t[i].orders@[k]).id
        < n by {
        let m: int = if i < p {
            i
        } else {
            i + 1
        };
        assert(s[m].orders@[k].id < n);
    }
    assert forall|i1: int, k1: int, i2: int, k2: int|
        0 <= i1 < t.len() && 0 <= k1 < t[i1].orders@.len() && 0 <= i2 < t.len()
            && 0 <= k2 < t[i2].orders@.len() && (i1 != i2 || k1 != k2) implies (
    #[trigger] t[i1].orders@[k1]).id != (#[trigger] t[i2].orders@[k2]).id by {
        let m1: int = if i1 < p {
            i1
        } else {
            i1 + 1
        };
        let m2: int = if i2 < p {
            i2
        } else {
            i2 + 1
        };
        assert(s[m1].orders@[k1].id != s[m2].orders@[k2].id);
    }
    assert forall|x: u128| #[trigger] side_has_id(t, x) implies side_has_id(s, x) by {
        let (i, k) = choose|i: int, k: int|
            0 <= i < t.len() && 0 <= k < t[i].orders@.len() && (#[trigger] t[i].orders@[k]).id
                == x;
        let m: int = if i < p {
            i
        } else {
            i + 1
        };
        assert(s[m].orders@[k].id == x);
    }
}

/// Front-trimming composes: what remains after two rounds of consumption
/// from the front is a front-trimmed remainder of the queue both began from.
pub proof fn lemma_level_trimmed_trans(a: Seq<Order>, b: Seq<Order>, c: Seq<Order>)
    requires
        level_trimmed(a, b),
        level_trimmed(b, c),
    ensures
        level_trimmed(a, c),
{
    let d1 = choose|d: int| #[trigger] level_trimmed_at(a, b, d);
    let d2 = choose|d: int| #[trigger] level_trimmed_at(b, c, d);
    assert forall|k: int| 1 <= k < c.len() implies c[k] == a[k + (d1 + d2)] by {
        assert(c[k] == b[k + d2]);
        assert(b[k + d2] == a[k + d2 + d1]);
    }
    if c.len() > 0 && d2 > 0 {
        assert(c[0].id == b[d2].id && b[d2] == a[d2 + d1]);
    }
    assert(level_trimmed_at(a, c, d1 + d2));
}

/// An untouched side is trivially an already-consumed remainder of itself,
/// from either end.
pub proof fn lemma_side_eaten_refl(s: Seq<PriceLevel>)
    ensures
        side_eaten_front(s, s),
        side_eaten_back(s, s),
{
    if s.len() > 0 {
        assert(level_trimmed_at(s[0].orders@, s[0].orders@, 0));
        assert(level_trimmed(s[0].orders@, s[0].orders@));
        assert(level_trimmed_at(s[s.len() - 1].orders@, s[s.len() - 1].orders@, 0));
        assert(level_trimmed(s[s.len() - 1].orders@, s[s.len() - 1].orders@));
    }
    assert(side_eaten_front_at(s, s, 0));
    assert(side_eaten_back_at(s, s, 0));
}

/// Consumption from the cheap end composes across rounds.
pub proof fn lemma_side_eaten_front_trans(
    s: Seq<PriceLevel>,
    m: Seq<PriceLevel>,
    u: Seq<PriceLevel>,
)
    requires
        side_eaten_front(s, m),
        side_eaten_front(m, u),
    ensures
        side_eaten_front(s, u),
{
    let d1 = choose|d: int| #[trigger] side_eaten_front_at(s, m, d);
    let d2 = choose|d: int| #[trigger] side_eaten_front_at(m, u, d);
    assert forall|i: int| 1 <= i < u.len() implies u[i] == s[i + (d1 + d2)] by {
        assert(u[i] == m[i + d2]);
        assert(m[i + d2] == s[i + d2 + d1]);
    }
    if u.len() > 0 {
        if d2 == 0 {
            lemma_level_trimmed_trans(s[d1].orders@, m[0].orders@, u[0].orders@);
        } else {
            assert(m[d2] == s[d2 + d1]);
        }
    }
    assert(side_eaten_front_at(s, u, d1 + d2));
}

/// Consumption from the expensive end composes across rounds.
pub proof fn lemma_side_eaten_back_trans(
    s: Seq<PriceLevel>,
    m: Seq<PriceLevel>,
    u: Seq<PriceLevel>,
)
    requires
        side_eaten_back(s, m),
        side_eaten_back(m, u),
    ensures
        side_eaten_back(s, u),
{
    let d1 = choose|d: int| #[trigger] side_eaten_back_at(s, m, d);
    let d2 = choose|d: int| #[trigger] side_eaten_back_at(m, u, d);
    assert forall|i: int| 0 <= i < u.len() - 1 implies u[i] == s[i] by {
        assert(u[i] == m[i]);
        assert(m[i] == s[i]);
    }
    if u.len() > 0 {
        let lu: int = u.len() - 1;
        if u.len() == m.len() {
            assert(lu == m.len() - 1);
            lemma_level_trimmed_trans(s[lu].orders@, m[lu].orders@, u[lu].orders@);
        } else {
            // The level u's remainder descends from sat strictly inside m,
            // where m still agreed with s.
            assert(m[lu] == s[lu]);
        }
    }
    assert(side_eaten_back_at(s, u, d1 + d2));
}

/// The consumption stream of a nonempty ask side starts with the head order
/// of its cheapest level.
pub proof fn lemma_asks_stream_first(s: Seq<PriceLevel>)
    requires
        s.len() > 0,
        s[0].orders@.len() > 0,
    ensures
        asks_stream(s).len() > 0,
        asks_stream(s)[0] == s[0].orders@[0],
{
    assert(asks_stream(s) == s[0].orders@ + asks_stream(s.skip(1)));
}

/// The consumption stream of a nonempty bid side starts with the head order
/// of its dearest level.
pub proof fn lemma_bids_stream_first(s: Seq<PriceLevel>)
    requires
        s.len() > 0,
        s.last().orders@.len() > 0,
    ensures
        bids_stream(s).len() > 0,
        bids_stream(s)[0] == s.last().orders@[0],
{
    assert(bids_stream(s) == s.last().orders@ + bids_stream(s.drop_last()));
}

/// Reducing the head order of the cheapest ask level reduces the head of the
/// consumption stream.
pub proof fn lemma_asks_stream_dec(s: Seq<PriceLevel>, t: Seq<PriceLevel>, o: Order)
    requires
        s.len() > 0,
        s[0].orders@.len() > 0,
        t.len() == s.len(),
        t[0].orders@ == s[0].orders@.update(0, o),
        forall|i: int| 1 <= i < t.len() ==> t[i] == s[i],
    ensures
        asks_stream(t) == asks_stream(s).update(0, o),
{
    assert(t.skip(1) =~= s.skip(1));
    assert(asks_stream(t) == t[0].orders@ + asks_stream(t.skip(1)));
    assert(asks_stream(s) == s[0].orders@ + asks_stream(s.skip(1)));
    assert(asks_stream(t) =~= asks_stream(s).update(0, o));
}

/// Consuming the whole head order of the cheapest ask level pops the head of
/// the consumption stream, whether or not the level's key leaves the side.
pub proof fn lemma_asks_stream_pop(s: Seq<PriceLevel>, t: Seq<PriceLevel>)
    requires
        s.len() > 0,
        s[0].orders@.len() > 0,
        if s[0].orders@.len() == 1 {
            t == s.skip(1)
        } else {
            t.len() == s.len() && t[0].orders@ == s[0].orders@.skip(1) && (forall|i: int|
                1 <= i < t.len() ==> t[i] == s[i])
        },
    ensures
        asks_stream(t) == asks_stream(s).skip(1),
{
    assert(asks_stream(s) == s[0].orders@ + asks_stream(s.skip(1)));
    if s[0].orders@.len() == 1 {
        assert(asks_stream(t) =~= asks_stream(s).skip(1));
    } else {
        assert(t.skip(1) =~= s.skip(1));
        assert(asks_stream(t) == t[0].orders@ + asks_stream(t.skip(1)));
        assert(asks_stream(t) =~= asks_stream(s).skip(1));
    }
}

/// Reducing the head order of the dearest bid level reduces the head of the
/// consumption stream.
pub proof fn lemma_bids_stream_dec(s: Seq<PriceLevel>, t: Seq<PriceLevel>, o: Order)
    requires
        s.len() > 0,
        s.last().orders@.len() > 0,
        t.len() == s.len(),
        t.last().orders@ == s.last().orders@.update(0, o),
        forall|i: int| 0 <= i < t.len() - 1 ==> t[i] == s[i],
    ensures
        bids_stream(t) == bids_stream(s).update(0, o),
{
    assert(t.drop_last() =~= s.drop_last());
    assert(bids_stream(t) == t.last().orders@ + bids_stream(t.drop_last()));
    assert(bids_stream(s) == s.last().orders@ + bids_stream(s.drop_last()));
    assert(bids_stream(t) =~= bids_stream(s).update(0, o));
}

/// Consuming the whole head order of the dearest bid level pops the head of
/// the consumption stream, whether or not the level's key leaves the side.
pub proof fn lemma_bids_stream_pop(s: Seq<PriceLevel>, t: Seq<PriceLevel>)
    requires
        s.len() > 0,
        s.last().orders@.len() > 0,
        if s.last().orders@.len() == 1 {
            t == s.drop_last()
        } else {
            t.len() == s.len() && t.last().orders@ == s.last().orders@.skip(1) && (forall|i: int|
                0 <= i < t.len() - 1 ==> t[i] == s[i])
        },
    ensures
        bids_stream(t) == bids_stream(s).skip(1),
{
    assert(bids_stream(s) == s.last().orders@ + bids_stream(s.drop_last()));
    if s.last().orders@.len() == 1 {
        assert(bids_stream(t) =~= bids_stream(s).skip(1));
    } else {
        assert(t.drop_last() =~= s.drop_last());
        assert(bids_stream(t) == t.last().orders@ + bids_stream(t.drop_last()));
        assert(bids_stream(t) =~= bids_stream(s).skip(1));
    }
}

/// One round of the matching loop advances the exact trade sequence by one
/// trade: the two stream heads meet, the smaller head quantity trades at the
/// ask head's (resting) price, and each stream loses what was consumed.
pub proof fn lemma_match_stream_step(
    b: Seq<Order>,
    a: Seq<Order>,
    b2: Seq<Order>,
    a2: Seq<Order>,
)
    requires
        b.len() > 0,
        a.len() > 0,
        b[0].price >= a[0].price,
        b[0].quantity < a[0].quantity ==> b2 == b.skip(1) && a2 == a.update(
            0,
            order_minus(a[0], b[0].quantity),
        ),
        a[0].quantity < b[0].quantity ==> b2 == b.update(0, order_minus(b[0], a[0].quantity))
            && a2 == a.skip(1),
        a[0].quantity == b[0].quantity ==> b2 == b.skip(1) && a2 == a.skip(1),
    ensures
        match_stream(b, a) == seq![
            (
                a[0].price,
                if b[0].quantity < a[0].quantity {
                    b[0].quantity
                } else {
                    a[0].quantity
                },
            ),
        ] + match_stream(b2, a2),
        match_bids_rem(b, a) == match_bids_rem(b2, a2),
        match_asks_rem(b, a) == match_asks_rem(b2, a2),
{
}
pub proof fn lemma_side_order_removed(
    s: Seq<PriceLevel>,
    t: Seq<PriceLevel>,
    p: int,
    k0: int,
    is_buy: bool,
    n: u128,
)
    requires
        side_wf(s, is_buy),
        side_ids_unique(s),
        side_ids_lt(s, n),
        0 <= p < s.len(),
        0 <= k0 < s[p].orders@.len(),
        s[p].orders@.len() > 1,
        t.len() == s.len(),
        t[p].price == s[p].price,
        t[p].orders@ == s[p].orders@.remove(k0),
        forall|i: int| 0 <= i < t.len() && i != p ==> t[i] == s[i],
    ensures
        side_wf(t, is_buy),
        side_ids_unique(t),
        side_ids_lt(t, n),
        forall|x: u128|
            #[trigger] side_has_id(t, x) <==> side_has_id(s, x) && x != s[p].orders@[k0].id,
        t[0].price == s[0].price,
        t.last().price == s.last().price,
{
    let id0 = s[p].orders@[k0].id;
    assert forall|k: int| 0 <= k < t[p].orders@.len() implies #[trigger] t[p].orders@[k]
        == s[p].orders@[if k < k0 {
        k
    } else {
        k + 1
    }] by {}
    assert forall|i: int| 0 <= i < t.len() implies level_wf(#[trigger] t[i], is_buy) by {
        assert(level_wf(s[i], is_buy));
        if i == p {
            assert forall|k: int| 0 <= k < t[p].orders@.len() implies order_ok(
                #[trigger] t[p].orders@[k],
                t[p].price,
                is_buy,
            ) by {
                let m: int = if k < k0 {
                    k
                } else {
                    k + 1
                };
                assert(order_ok(s[p].orders@[m], s[p].price, is_buy));
            }
        }
    }
    assert forall|i1: int, i2: int| 0 <= i1 < i2 < t.len() implies (#[trigger] t[i1]).price < (
    #[trigger] t[i2]).price by {
        assert(t[i1].price == s[i1].price);
        assert(t[i2].price == s[i2].price);
    }
    assert forall|i: int, k: int|
        0 <= i < t.len() && 0 <= k < t[i].orders@.len() implies (#[trigger] t[i].orders@[k]).id
        < n by {
        let m: int = if i == p && k >= k0 {
            k + 1
        } else {
            k
        };
        assert(s[i].orders@[m].id < n);
    }
    assert forall|i1: int, k1: int, i2: int, k2: int|
        0 <= i1 < t.len() && 0 <= k1 < t[i1].orders@.len() && 0 <= i2 < t.len()
            && 0 <= k2 < t[i2].orders@.len() && (i1 != i2 || k1 != k2) implies (
    #[trigger] t[i1].orders@[k1]).id != (#[trigger] t[i2].orders@[k2]).id by {
        let m1: int = if i1 == p && k1 >= k0 {
            k1 + 1
        } else {
            k1
        };
        let m2: int = if i2 == p && k2 >= k0 {
            k2 + 1
        } else {
            k2
        };
        assert(t[i1].orders@[k1] == s[i1].orders@[m1]);
        assert(t[i2].orders@[k2] == s[i2].orders@[m2]);
        assert(s[i1].orders@[m1].id != s[i2].orders@[m2].id);
    }
    assert forall|x: u128| #[trigger] side_has_id(t, x) implies side_has_id(s, x) && x != id0 by {
        let (i, k) = choose|i: int, k: int|
            0 <= i < t.len() && 0 <= k < t[i].orders@.len() && (#[trigger] t[i].orders@[k]).id
                == x;
        let m: int = if i == p && k >= k0 {
            k + 1
        } else {
            k
        };
        assert(t[i].orders@[k] == s[i].orders@[m]);
        assert(s[i].orders@[m].id == x);
        if x == id0 {
            // Two distinct resting positions of s would share the id.
            assert(i != p || m != k0);
            assert(s[i].orders@[m].id != s[p].orders@[k0].id);
        }
    }
    assert forall|x: u128| side_has_id(s, x) && x != id0 implies #[trigger] side_has_id(t, x) by {
        let (i, k) = choose|i: int, k: int|
            0 <= i < s.len() && 0 <= k < s[i].orders@.len() && (#[trigger] s[i].orders@[k]).id
                == x;
        if i == p {
            assert(k != k0);
            let m: int = if k < k0 {
                k
            } else {
                k - 1
            };
            assert(t[p].orders@[m] == s[p].orders@[k]);
        } else {
            assert(t[i].orders@[k] == s[i].orders@[k]);
        }
    }
}

/// A level holding a single order disappears: all well-formedness predicates
/// carry over, exactly that order's id leaves the side, and the levels at
/// each end of the side can only move inward.
pub proof fn lemma_side_singleton_level_removed(s: Seq<PriceLevel>, p: int, is_buy: bool, n: u128)
    requires
        side_wf(s, is_buy),
        side_ids_unique(s),
        side_ids_lt(s, n),
        0 <= p < s.len(),
        s[p].orders@.len() == 1,
    ensures
        side_wf(s.remove(p), is_buy),
        side_ids_unique(s.remove(p)),
        side_ids_lt(s.remove(p), n),
        forall|x: u128|
            #[trigger] side_has_id(s.remove(p), x) <==> side_has_id(s, x) && x != s[p].orders@[0].id,
        s.remove(p).len() > 0 ==> s.remove(p)[0].price >= s[0].price && s.remove(p).last().price
            <= s.last().price,
{
    let t = s.remove(p);
    let id0 = s[p].orders@[0].id;
    lemma_side_level_removed(s, p, is_buy, n);
    assert forall|x: u128| #[trigger] side_has_id(t, x) implies side_has_id(s, x) && x != id0 by {
        let (i, k) = choose|i: int, k: int|
            0 <= i < t.len() && 0 <= k < t[i].orders@.len() && (#[trigger] t[i].orders@[k]).id
                == x;
        let m: int = if i < p {
            i
        } else {
            i + 1
        };
        assert(t[i].orders@[k] == s[m].orders@[k]);
        if x == id0 {
            assert(s[m].orders@[k].id != s[p].orders@[0].id);
        }
    }
    assert forall|x: u128| side_has_id(s, x) && x != id0 implies #[trigger] side_has_id(t, x) by {
        let (i, k) = choose|i: int, k: int|
            0 <= i < s.len() && 0 <= k < s[i].orders@.len() && (#[trigger] s[i].orders@[k]).id
                == x;
        assert(i != p);
        let m: int = if i < p {
            i
        } else {
            i - 1
        };
        assert(t[m].orders@[k] == s[i].orders@[k]);
    }
    if t.len() > 0 {
        let tl: int = t.len() as int;
        assert(t[0] == s[if 0 < p {
            0int
        } else {
            1int
        }]);
        assert(t.last() == s[if tl - 1 < p {
            tl - 1
        } else {
            tl
        }]);
        if p == 0 {
            assert(s[0].price < s[1].price);
        }
        if p == s.len() - 1 {
            assert(s[tl - 1].price < s[tl].price);
        }
    }
}

} // verus!
