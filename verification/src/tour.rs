//! The tour optimizer: the order in which the shapes of one pen are drawn.
//!
//! The tour is greedy. It starts with the first shape; after each shape it
//! goes on with the one, of those still to draw, that starts nearest to where
//! the pen then is, the earliest of them where several are equally near.

use std::collections::HashMap;
use vstd::prelude::*;
use crate::command::Point;
use crate::shapes::{no_empty_shape, view_plot, view_shapes, Plot, Shape};

verus! {

/// The square of the Euclidean distance between `p` and `q`. Distances
/// compare as their squares do.
pub open spec fn distance_squared(p: Point, q: Point) -> int {
    (p.x - q.x) * (p.x - q.x) + (p.y - q.y) * (p.y - q.y)
}

/// Whether `pool[i]` is the shape of `pool` that starts nearest to `p`, and
/// the first of those that start as near.
pub open spec fn is_closest(p: Point, pool: Seq<Seq<Point>>, i: int) -> bool {
    &&& 0 <= i < pool.len()
    &&& forall|j: int|
        0 <= j < pool.len() ==> distance_squared(pool[i][0], p) <= distance_squared(
            (#[trigger] pool[j])[0],
            p,
        )
    &&& forall|j: int|
        0 <= j < i ==> distance_squared(pool[i][0], p) < distance_squared(
            (#[trigger] pool[j])[0],
            p,
        )
}

/// The index of the shape of `pool` that starts nearest to `p`.
pub open spec fn closest(p: Point, pool: Seq<Seq<Point>>) -> int {
    choose|i: int| is_closest(p, pool, i)
}

/// At most one index is that of the closest shape.
pub proof fn lemma_closest_unique(p: Point, pool: Seq<Seq<Point>>, i: int, j: int)
    requires
        is_closest(p, pool, i),
        is_closest(p, pool, j),
    ensures
        i == j,
{
    if i < j {
        assert(distance_squared(pool[j][0], p) < distance_squared(pool[i][0], p));
        assert(distance_squared(pool[j][0], p) <= distance_squared(pool[i][0], p));
    } else if j < i {
        assert(distance_squared(pool[i][0], p) < distance_squared(pool[j][0], p));
    }
}

/// A pool that is not empty has a closest shape.
pub proof fn lemma_closest_exists(p: Point, pool: Seq<Seq<Point>>)
    requires
        pool.len() > 0,
    ensures
        is_closest(p, pool, closest(p, pool)),
    decreases pool.len(),
{
    if pool.len() == 1 {
        assert(is_closest(p, pool, 0));
    } else {
        let front = pool.drop_last();
        lemma_closest_exists(p, front);
        let i = closest(p, front);
        let k = pool.len() - 1;
        assert forall|j: int| 0 <= j < k implies pool[j] == front[j] by {}
        if distance_squared(pool[k][0], p) < distance_squared(pool[i][0], p) {
            assert forall|j: int| 0 <= j < k implies distance_squared(pool[k][0], p)
                < distance_squared((#[trigger] pool[j])[0], p) by {
                assert(distance_squared(front[i][0], p) <= distance_squared(front[j][0], p));
            }
            assert(is_closest(p, pool, k));
        } else {
            assert forall|j: int| 0 <= j < pool.len() implies distance_squared(pool[i][0], p)
                <= distance_squared((#[trigger] pool[j])[0], p) by {
                if j < k {
                    assert(distance_squared(front[i][0], p) <= distance_squared(front[j][0], p));
                }
            }
            assert forall|j: int| 0 <= j < i implies distance_squared(pool[i][0], p)
                < distance_squared((#[trigger] pool[j])[0], p) by {
                assert(distance_squared(front[i][0], p) < distance_squared(front[j][0], p));
            }
            assert(is_closest(p, pool, i));
        }
    }
}

/// The greedy tour of `pool` for a pen that stands at `p`.
pub open spec fn tour_from(p: Point, pool: Seq<Seq<Point>>) -> Seq<Seq<Point>>
    decreases pool.len(),
    via tour_from_decreases
{
    if pool.len() == 0 {
        Seq::empty()
    } else {
        let i = closest(p, pool);
        seq![pool[i]] + tour_from(pool[i].last(), pool.remove(i))
    }
}

#[via_fn]
proof fn tour_from_decreases(p: Point, pool: Seq<Seq<Point>>) {
    if pool.len() > 0 {
        lemma_closest_exists(p, pool);
    }
}

/// The greedy tour of `shapes`: the first shape, then the greedy tour of the
/// others from where the first one ends.
pub open spec fn tour(shapes: Seq<Seq<Point>>) -> Seq<Seq<Point>> {
    if shapes.len() == 0 {
        Seq::empty()
    } else {
        seq![shapes[0]] + tour_from(shapes[0].last(), shapes.drop_first())
    }
}

/// Whether `t` is in greedy order for a pen that stands at `p`: whether each
/// of its shapes is the closest of those from it on, seen from where the pen
/// stands when its turn comes.
pub open spec fn is_greedy(p: Point, t: Seq<Seq<Point>>) -> bool
    decreases t.len(),
{
    t.len() > 0 ==> is_closest(p, t, 0) && is_greedy(t[0].last(), t.drop_first())
}

/// A greedy tour holds the shapes of its pool and no others.
pub proof fn lemma_tour_from_permutes(p: Point, pool: Seq<Seq<Point>>)
    ensures
        tour_from(p, pool).len() == pool.len(),
        tour_from(p, pool).to_multiset() == pool.to_multiset(),
    decreases pool.len(),
{
    broadcast use vstd::seq_lib::group_to_multiset_ensures;

    if pool.len() == 0 {
        assert(tour_from(p, pool) =~= pool);
    } else {
        lemma_closest_exists(p, pool);
        let i = closest(p, pool);
        let rest = pool.remove(i);
        lemma_tour_from_permutes(pool[i].last(), rest);
        let t = tour_from(pool[i].last(), rest);
        let one = Seq::<Seq<Point>>::empty().push(pool[i]);
        assert(tour_from(p, pool) =~= one + t);
        vstd::seq_lib::lemma_multiset_commutative(one, t);
        assert(pool.contains(pool[i]));
        assert(tour_from(p, pool).to_multiset() =~= pool.to_multiset());
    }
}

/// Every shape of a greedy tour is a shape of its pool.
pub proof fn lemma_tour_from_members(p: Point, pool: Seq<Seq<Point>>, j: int)
    requires
        0 <= j < tour_from(p, pool).len(),
    ensures
        exists|k: int| 0 <= k < pool.len() && pool[k] == tour_from(p, pool)[j],
    decreases pool.len(),
{
    if pool.len() > 0 {
        lemma_closest_exists(p, pool);
        let i = closest(p, pool);
        let rest = pool.remove(i);
        if j == 0 {
            assert(pool[i] == tour_from(p, pool)[j]);
        } else {
            lemma_tour_from_members(pool[i].last(), rest, j - 1);
            let k = choose|k: int|
                0 <= k < rest.len() && rest[k] == tour_from(pool[i].last(), rest)[j - 1];
            if k < i {
                assert(pool[k] == tour_from(p, pool)[j]);
            } else {
                assert(pool[k + 1] == tour_from(p, pool)[j]);
            }
        }
    }
}

/// A greedy tour is in greedy order.
pub proof fn lemma_tour_from_is_greedy(p: Point, pool: Seq<Seq<Point>>)
    ensures
        is_greedy(p, tour_from(p, pool)),
    decreases pool.len(),
{
    if pool.len() > 0 {
        lemma_closest_exists(p, pool);
        let i = closest(p, pool);
        let rest = pool.remove(i);
        let t = tour_from(p, pool);
        lemma_tour_from_is_greedy(pool[i].last(), rest);
        assert(t.drop_first() =~= tour_from(pool[i].last(), rest));
        assert forall|j: int| 0 <= j < t.len() implies distance_squared(t[0][0], p)
            <= distance_squared((#[trigger] t[j])[0], p) by {
            lemma_tour_from_members(p, pool, j);
            let k = choose|k: int| 0 <= k < pool.len() && pool[k] == tour_from(p, pool)[j];
            assert(distance_squared(pool[i][0], p) <= distance_squared(pool[k][0], p));
        }
        assert(is_closest(p, t, 0));
    }
}

/// The greedy tour of shapes that are in greedy order is those shapes as they
/// stand.
pub proof fn lemma_greedy_is_fixed(p: Point, t: Seq<Seq<Point>>)
    requires
        is_greedy(p, t),
    ensures
        tour_from(p, t) == t,
    decreases t.len(),
{
    if t.len() == 0 {
        assert(tour_from(p, t) =~= t);
    } else {
        lemma_closest_exists(p, t);
        lemma_closest_unique(p, t, 0, closest(p, t));
        assert(t.remove(0) =~= t.drop_first());
        lemma_greedy_is_fixed(t[0].last(), t.drop_first());
        assert(tour_from(p, t) =~= t);
    }
}

/// The tour holds the shapes it was given and no others.
pub proof fn lemma_tour_permutes(shapes: Seq<Seq<Point>>)
    ensures
        tour(shapes).len() == shapes.len(),
        tour(shapes).to_multiset() == shapes.to_multiset(),
{
    if shapes.len() > 0 {
        let rest = shapes.drop_first();
        let t = tour_from(shapes[0].last(), rest);
        let one = Seq::<Seq<Point>>::empty().push(shapes[0]);
        lemma_tour_from_permutes(shapes[0].last(), rest);
        vstd::seq_lib::lemma_multiset_commutative(one, t);
        vstd::seq_lib::lemma_multiset_commutative(one, rest);
        assert(one + rest =~= shapes);
        assert(tour(shapes) =~= one + t);
    } else {
        assert(tour(shapes) =~= shapes);
    }
}

/// Ordering shapes that are already ordered changes nothing.
pub proof fn lemma_tour_idempotent(shapes: Seq<Seq<Point>>)
    ensures
        tour(tour(shapes)) == tour(shapes),
{
    if shapes.len() > 0 {
        let rest = tour_from(shapes[0].last(), shapes.drop_first());
        let once = tour(shapes);
        assert(once.drop_first() =~= rest);
        lemma_tour_from_is_greedy(shapes[0].last(), shapes.drop_first());
        lemma_greedy_is_fixed(shapes[0].last(), rest);
    }
}

/// The plot in which the shapes of every pen but pen 0 are in tour order. Pen
/// 0 stands for "no pen": its shapes stay as they are.
pub open spec fn optimized(plot: Plot) -> Plot {
    Map::new(
        |color: u8| plot.contains_key(color),
        |color: u8|
            if color == 0 {
                plot[color]
            } else {
                tour(plot[color])
            },
    )
}

/// Optimizing a plot that is already optimized changes nothing.
pub proof fn lemma_optimized_idempotent(plot: Plot)
    ensures
        optimized(optimized(plot)) == optimized(plot),
{
    assert forall|color: u8| plot.contains_key(color) implies #[trigger] optimized(
        optimized(plot),
    )[color] == optimized(plot)[color] by {
        lemma_tour_idempotent(plot[color]);
    }
    assert(optimized(optimized(plot)) =~= optimized(plot));
}

/// The square of the distance between `p` and `q`, which fits in 65 bits.
fn squared_distance(p: &Point, q: &Point) -> (d: i128)
    ensures
        d == distance_squared(*p, *q),
{
    let dx: i128 = p.x as i128 - q.x as i128;
    let dy: i128 = p.y as i128 - q.y as i128;
    assert(0 <= dx * dx <= 0x1_0000_0000 * 0x1_0000_0000) by (nonlinear_arith)
        requires
            -0x1_0000_0000 <= dx <= 0x1_0000_0000,
    ;
    assert(0 <= dy * dy <= 0x1_0000_0000 * 0x1_0000_0000) by (nonlinear_arith)
        requires
            -0x1_0000_0000 <= dy <= 0x1_0000_0000,
    ;
    dx * dx + dy * dy
}

/// Finds the shape that starts nearest to `p`, the first of them where
/// several start as near: its index, or nothing where there is no shape.
pub fn find_closest(p: &Point, shapes: &Vec<Shape>) -> (best: Option<usize>)
    requires
        forall|i: int| 0 <= i < shapes.len() ==> (#[trigger] shapes[i]).len() > 0,
    ensures
        match best {
            Some(i) => is_closest(*p, view_shapes(shapes@), i as int) && i == closest(
                *p,
                view_shapes(shapes@),
            ),
            None => shapes.len() == 0,
        },
{
    if shapes.len() == 0 {
        return None;
    }
    let ghost pool = view_shapes(shapes@);
    let mut best: usize = 0;
    let mut best_distance: i128 = squared_distance(&shapes[0][0], p);
    let mut i: usize = 1;
    while i < shapes.len()
        invariant
            1 <= i <= shapes.len(),
            pool == view_shapes(shapes@),
            forall|i: int| 0 <= i < shapes.len() ==> (#[trigger] shapes[i]).len() > 0,
            best < i,
            best_distance == distance_squared(pool[best as int][0], *p),
            is_closest(*p, pool.take(i as int), best as int),
        decreases shapes.len() - i,
    {
        let d = squared_distance(&shapes[i][0], p);
        proof {
            let before = pool.take(i as int);
            let now = pool.take(i + 1);
            assert forall|j: int| 0 <= j < i implies now[j] == before[j] by {}
            assert(now[i as int] == pool[i as int]);
            if d < best_distance {
                assert forall|j: int| 0 <= j < i implies distance_squared(now[i as int][0], *p)
                    < distance_squared((#[trigger] now[j])[0], *p) by {
                    assert(distance_squared(before[best as int][0], *p) <= distance_squared(
                        before[j][0],
                        *p,
                    ));
                }
                assert(is_closest(*p, now, i as int));
            } else {
                assert forall|j: int| 0 <= j < now.len() implies distance_squared(
                    now[best as int][0],
                    *p,
                ) <= distance_squared((#[trigger] now[j])[0], *p) by {
                    if j < i {
                        assert(distance_squared(before[best as int][0], *p) <= distance_squared(
                            before[j][0],
                            *p,
                        ));
                    }
                }
                assert forall|j: int| 0 <= j < best implies distance_squared(
                    now[best as int][0],
                    *p,
                ) < distance_squared((#[trigger] now[j])[0], *p) by {
                    assert(distance_squared(before[best as int][0], *p) < distance_squared(
                        before[j][0],
                        *p,
                    ));
                }
                assert(is_closest(*p, now, best as int));
            }
        }
        if d < best_distance {
            best_distance = d;
            best = i;
        }
        i += 1;
    }
    proof {
        assert(pool.take(i as int) =~= pool);
        lemma_closest_exists(*p, pool);
        lemma_closest_unique(*p, pool, best as int, closest(*p, pool));
    }
    Some(best)
}

/// Puts the shapes of one pen in tour order. Each shape must have a point.
pub fn order_shapes(shapes: Vec<Shape>) -> (out: Vec<Shape>)
    requires
        forall|i: int| 0 <= i < shapes.len() ==> (#[trigger] shapes[i]).len() > 0,
    ensures
        view_shapes(out@) == tour(view_shapes(shapes@)),
        out.len() == shapes.len(),
        view_shapes(out@).to_multiset() == view_shapes(shapes@).to_multiset(),
        tour(view_shapes(out@)) == view_shapes(out@),
{
    let ghost given = view_shapes(shapes@);
    let mut pool = shapes;
    let mut out: Vec<Shape> = Vec::new();
    proof {
        lemma_tour_permutes(given);
        lemma_tour_idempotent(given);
    }
    if pool.len() == 0 {
        assert(view_shapes(out@) =~= tour(given));
        return out;
    }
    let first = pool.remove(0);
    let mut at: Point = first[first.len() - 1];
    out.push(first);
    assert(view_shapes(pool@) =~= given.drop_first());
    assert(view_shapes(out@) =~= seq![given[0]]);
    while pool.len() > 0
        invariant
            forall|i: int| 0 <= i < pool.len() ==> (#[trigger] pool[i]).len() > 0,
            tour(given) == view_shapes(out@) + tour_from(at, view_shapes(pool@)),
        decreases pool.len(),
    {
        let ghost before = view_shapes(pool@);
        let ghost done = view_shapes(out@);
        let i = match find_closest(&at, &pool) {
            Some(i) => i,
            None => {
                return out;
            },
        };
        let next = pool.remove(i);
        assert(view_shapes(pool@) =~= before.remove(i as int));
        assert(next@ == before[i as int]);
        at = next[next.len() - 1];
        out.push(next);
        assert(view_shapes(out@) =~= done + seq![before[i as int]]);
        assert(done + (seq![before[i as int]] + tour_from(at, view_shapes(pool@))) =~= view_shapes(
            out@,
        ) + tour_from(at, view_shapes(pool@)));
    }
    assert(view_shapes(out@) + tour_from(at, view_shapes(pool@)) =~= view_shapes(out@));
    out
}

/// Puts the shapes of every pen but pen 0 in tour order, each pen by itself.
pub fn optimize_all_colors(color_to_shapes: HashMap<u8, Vec<Shape>>) -> (out: HashMap<
    u8,
    Vec<Shape>,
>)
    requires
        no_empty_shape(view_plot(color_to_shapes@)),
    ensures
        view_plot(out@) == optimized(view_plot(color_to_shapes@)),
        optimized(view_plot(out@)) == view_plot(out@),
{
    broadcast use vstd::std_specs::hash::group_hash_axioms;

    let ghost given = view_plot(color_to_shapes@);
    let mut rest = color_to_shapes;
    let mut out: HashMap<u8, Vec<Shape>> = HashMap::new();
    let mut n: u16 = 0;
    while n < 256
        invariant
            n <= 256,
            no_empty_shape(given),
            forall|color: u8|
                color >= n ==> (#[trigger] rest@.contains_key(color) <==> given.contains_key(
                    color,
                )),
            forall|color: u8| color >= n && rest@.contains_key(color) ==> view_shapes(
                (#[trigger] rest@[color])@,
            ) == given[color],
            forall|color: u8|
                #[trigger] out@.contains_key(color) <==> color < n && given.contains_key(color),
            forall|color: u8|
                out@.contains_key(color) ==> view_shapes((#[trigger] out@[color])@) == optimized(
                    given,
                )[color],
        decreases 256 - n,
    {
        let color: u8 = n as u8;
        match rest.remove(&color) {
            Some(shapes) => {
                proof {
                    assert(view_shapes(shapes@) == given[color]);
                    assert forall|i: int| 0 <= i < shapes.len() implies (#[trigger] shapes[i]).len()
                        > 0 by {
                        assert(given[color][i] == shapes[i]@);
                    }
                }
                if color == 0 {
                    out.insert(color, shapes);
                } else {
                    out.insert(color, order_shapes(shapes));
                }
            },
            None => {},
        }
        n += 1;
    }
    proof {
        assert(view_plot(out@) =~= optimized(given));
        lemma_optimized_idempotent(given);
    }
    out
}

} // verus!
