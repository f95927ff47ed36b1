//! Properties of the race that hold for all inputs, proved over the models
//! that the coordinator's contracts use.
use vstd::prelude::*;
use crate::game::{
    accelerated, acceleration_allowed, registration, after_shell, car_fits, car_of,
    closest_to, eligible, has_id, ids_unique, index_of, moved, moved_all, paid_shell, penalized,
    sat_inc_u8, shell_allowed, lemma_index_of, next_turn,
};
use crate::types::{
    starting_car, ActorId, Car, GameState, ACCELERATION_COST, MAX_DISTANCE, PENALTY_LIMIT, QUORUM, SHELL_COST,
};

verus! {

/// Car table, turn order and state after each of `xs` asks, in order, to
/// register with a fresh coordinator.
pub open spec fn registered(xs: Seq<ActorId>) -> (Seq<(ActorId, Car)>, Seq<ActorId>, GameState)
    decreases xs.len(),
{
    if xs.len() == 0 {
        (Seq::empty(), Seq::empty(), GameState::Registration)
    } else {
        let before = registered(xs.drop_last());
        registration(before.0, before.1, before.2, xs.last())
    }
}

/// The distinct identities of `xs`, in order of first occurrence.
pub open spec fn distinct(xs: Seq<ActorId>) -> Seq<ActorId>
    decreases xs.len(),
{
    if xs.len() == 0 {
        Seq::empty()
    } else {
        let d = distinct(xs.drop_last());
        if d.contains(xs.last()) {
            d
        } else {
            d.push(xs.last())
        }
    }
}

pub open spec fn quorum_cap(n: int) -> int {
    if n < QUORUM {
        n
    } else {
        QUORUM as int
    }
}

/// After any sequence of registrations, the turn order holds the first
/// `min(k, QUORUM)` distinct identities, in order of first registration,
/// where `k` is how many distinct identities registered; registration is
/// closed exactly when the quorum has been reached. Each identity in the turn
/// order has a car, and each car is in the turn order.
pub proof fn lemma_registrations(xs: Seq<ActorId>)
    ensures
        registered(xs).1 == distinct(xs).take(quorum_cap(distinct(xs).len() as int)),
        registered(xs).1.len() == quorum_cap(distinct(xs).len() as int),
        (registered(xs).2 == GameState::ReadyToStart) <==> distinct(xs).len() >= QUORUM,
        distinct(xs).len() < QUORUM ==> registered(xs).2 == GameState::Registration,
        forall|x: ActorId| #[trigger] has_id(registered(xs).0, x) <==> registered(xs).1.contains(x),
    decreases xs.len(),
{
    if xs.len() == 0 {
        assert(distinct(xs).take(0) =~= Seq::<ActorId>::empty());
    } else {
        let rest = xs.drop_last();
        let x = xs.last();
        lemma_registrations(rest);
        let (c, ids, st) = registered(rest);
        let d = distinct(rest);
        if d.len() < QUORUM {
            assert(d.take(d.len() as int) =~= d);
            if !d.contains(x) {
                assert(!has_id(c, x));
                let c2 = c.push((x, starting_car()));
                assert(d.push(x).take(d.len() + 1 as int) =~= d.push(x));
                assert forall|y: ActorId| #[trigger] has_id(c2, y) <==> ids.push(x).contains(y) by {
                    if has_id(c2, y) {
                        let w = choose|w: int| 0 <= w < c2.len() && c2[w].0 == y;
                        if w < c.len() {
                            assert(has_id(c, y));
                            let v = choose|v: int| 0 <= v < ids.len() && ids[v] == y;
                            assert(ids.push(x)[v] == y);
                        } else {
                            assert(ids.push(x)[ids.len() as int] == y);
                        }
                    }
                    if ids.push(x).contains(y) {
                        let v = choose|v: int| 0 <= v < ids.len() + 1 && ids.push(x)[v] == y;
                        if v < ids.len() {
                            assert(ids.contains(y));
                            assert(has_id(c, y));
                            let w = choose|w: int| 0 <= w < c.len() && c[w].0 == y;
                            assert(c2[w].0 == y);
                        } else {
                            assert(c2[c.len() as int].0 == y);
                        }
                    }
                }
            } else {
                assert(has_id(c, x));
            }
        } else {
            assert(d.push(x).take(QUORUM as int) =~= d.take(QUORUM as int));
        }
    }
}

/// A purchase of acceleration takes effect exactly when it is within the
/// limit and affordable, and never takes the balance below zero; otherwise
/// only the penalty grows.
pub proof fn lemma_acceleration_iff_affordable(c: Car, amount: u32)
    requires
        car_fits(c),
    ensures
        acceleration_allowed(c, amount) <==> (amount <= crate::types::MAX_ACC_AMOUNT
            && ACCELERATION_COST * amount <= c.balance),
        acceleration_allowed(c, amount) ==> accelerated(c, amount).balance == c.balance
            - ACCELERATION_COST * amount && accelerated(c, amount).speed == c.speed + amount
            && accelerated(c, amount).penalty == c.penalty,
        !acceleration_allowed(c, amount) ==> accelerated(c, amount).balance == c.balance
            && accelerated(c, amount).speed == c.speed && accelerated(c, amount).penalty
            == sat_inc_u8(c.penalty),
        car_fits(accelerated(c, amount)),
{
}

/// A purchase of shells is paid exactly when it is within the limit and
/// affordable, and never takes the balance below zero; otherwise only the
/// buyer's penalty grows.
pub proof fn lemma_shell_iff_affordable(cars: Seq<(ActorId, Car)>, k: int, amount: u32)
    requires
        0 <= k < cars.len(),
    ensures
        shell_allowed(cars[k].1, amount) <==> (amount <= crate::types::MAX_SHELL_AMOUNT
            && SHELL_COST * amount <= cars[k].1.balance),
        shell_allowed(cars[k].1, amount) ==> after_shell(cars, k, amount)[k].1
            == paid_shell(cars[k].1, amount) && paid_shell(cars[k].1, amount).balance
            == cars[k].1.balance - SHELL_COST * amount,
        !shell_allowed(cars[k].1, amount) ==> after_shell(cars, k, amount) == cars.update(
            k,
            (cars[k].0, penalized(cars[k].1)),
        ),
{
    if shell_allowed(cars[k].1, amount) {
        if closest_to(cars, k) is Some {
            let u = choose|u: int| crate::game::is_closest(cars, k, u);
            assert(crate::game::is_closest(cars, k, u));
        }
    }
}

/// The car that a shell hits ends with speed `max(0, speed - amount)`; its
/// other fields do not change.
pub proof fn lemma_shell_hit(cars: Seq<(ActorId, Car)>, k: int, amount: u32, t: int)
    requires
        0 <= k < cars.len(),
        shell_allowed(cars[k].1, amount),
        closest_to(cars, k) == Some(t),
    ensures
        0 <= t < cars.len(),
        t != k,
        after_shell(cars, k, amount)[t].1.speed == if cars[t].1.speed >= amount {
            cars[t].1.speed - amount
        } else {
            0
        },
        after_shell(cars, k, amount)[t].1.position == cars[t].1.position,
        after_shell(cars, k, amount)[t].1.balance == cars[t].1.balance,
        after_shell(cars, k, amount)[t].1.penalty == cars[t].1.penalty,
{
    let u = choose|u: int| crate::game::is_closest(cars, k, u);
    assert(crate::game::is_closest(cars, k, u));
}

/// Over a round a car never moves back and never passes the finish line.
pub proof fn lemma_position_monotone(c: Car)
    requires
        car_fits(c),
    ensures
        c.position <= moved(c).position <= MAX_DISTANCE,
        car_fits(moved(c)),
{
}

/// With the turn order unchanged, the turn passes back to its start (and the
/// round counter moves) on the reply of the last participant of the order,
/// and on no other: once per full cycle.
pub proof fn lemma_one_close_per_cycle(turn: u8, len: int)
    requires
        0 <= turn < len,
    ensures
        (next_turn(turn, len) == 0) <==> turn == len - 1,
        turn < len - 1 ==> next_turn(turn, len) == turn + 1,
{
    let t = turn + 1;
    assert(t < len ==> t % len == t) by (nonlinear_arith)
        requires
            0 < t <= len,
    ;
    assert(t == len ==> t % len == 0) by (nonlinear_arith)
        requires
            0 < t <= len,
    ;
}

/// How many times the turn passes back to the start of a turn order of
/// `len` in `k` replies from turn `turn`, the order unchanged: the number of
/// rounds that close, by the contract of `handle_reply`.
pub open spec fn closes(turn: int, len: int, k: nat) -> int
    decreases k,
{
    if k == 0 || len <= 0 {
        0
    } else {
        let next = (turn + 1) % len;
        (if next == 0 { 1int } else { 0int }) + closes(next, len, (k - 1) as nat)
    }
}

/// From the start of a turn order of `len`, `k` replies close exactly
/// `k / len` rounds: one per full cycle.
pub proof fn lemma_rounds_per_cycles(len: int, k: nat)
    requires
        len > 0,
    ensures
        closes(0, len, k) == (k as int) / len,
{
    lemma_closes_from(0, len, k);
}

proof fn lemma_closes_from(turn: int, len: int, k: nat)
    requires
        0 <= turn < len,
    ensures
        closes(turn, len, k) == (turn + k) / len,
    decreases k,
{
    if k == 0 {
        assert(turn / len == 0) by (nonlinear_arith)
            requires
                0 <= turn < len,
        ;
    } else {
        let t = turn + 1;
        let m = (k - 1) as nat;
        if t < len {
            assert(t % len == t) by (nonlinear_arith)
                requires
                    0 < t < len,
            ;
            lemma_closes_from(t, len, m);
        } else {
            assert(t % len == 0) by (nonlinear_arith)
                requires
                    t == len,
                    len > 0,
            ;
            lemma_closes_from(0, len, m);
            assert((len + m) / len == 1 + (m as int) / len) by (nonlinear_arith)
                requires
                    len > 0,
                    m >= 0,
            ;
        }
    }
}

/// At a round's close, a participant whose penalty reached the limit leaves
/// the turn order, keeps its car in the table, and the turn order only
/// shrinks.
pub proof fn lemma_penalized_leave(ids: Seq<ActorId>, cars: Seq<(ActorId, Car)>, x: ActorId)
    requires
        ids_unique(cars),
        has_id(cars, x),
        car_of(cars, x).penalty >= PENALTY_LIMIT,
    ensures
        !eligible(ids, cars).contains(x),
        eligible(ids, cars).len() <= ids.len(),
        has_id(moved_all(cars), x),
        car_of(moved_all(cars), x).penalty == car_of(cars, x).penalty,
{
    let f = |y: ActorId| car_of(cars, y).penalty < PENALTY_LIMIT;
    ids.lemma_filter_len(f);
    if eligible(ids, cars).contains(x) {
        let j = choose|j: int| 0 <= j < eligible(ids, cars).len() && eligible(ids, cars)[j] == x;
        ids.lemma_filter_pred(f, j);
    }
    let m = moved_all(cars);
    let w = index_of(cars, x);
    assert(m[w].0 == x);
    assert(ids_unique(m)) by {
        assert forall|a: int, b: int| 0 <= a < m.len() && 0 <= b < m.len() && m[a].0 == m[b].0 implies a == b by {
            assert(m[a].0 == cars[a].0 && m[b].0 == cars[b].0);
        }
    }
    lemma_index_of(m, w);
}

} // verus!
