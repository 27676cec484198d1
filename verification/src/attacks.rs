//! Where pieces can reach: rays for the sliding pieces, fixed steps for
//! knight, king and pawn captures, and pawn pushes.
//!
//! A direction is a number in `0..8`. Going one step in it changes a square's
//! index by `1, -1, 7, -7, 8, -8, 9, -9` in that order.

use vstd::prelude::*;
use crate::bitboard::Bitboard;
use crate::bits::{has_bit, lemma_and, lemma_or, lemma_xor, lemma_zero, lemma_lowest, lemma_highest};
use crate::pieces::Sides;

verus! {

pub const RAY_COUNT: usize = 8;

/// `k` steps along an axis whose unit is `u` (one of -1, 0, 1).
pub open spec fn scaled(u: int, k: int) -> int {
    if u == 1 {
        k
    } else if u == -1 {
        -k
    } else {
        0
    }
}

/// Change of file made by one step in direction `d`.
pub open spec fn ray_df(d: int) -> int {
    if d == 0 || d == 3 || d == 6 {
        1
    } else if d == 1 || d == 2 || d == 7 {
        -1
    } else {
        0
    }
}

/// Change of rank made by one step in direction `d`.
pub open spec fn ray_dr(d: int) -> int {
    if d == 2 || d == 4 || d == 6 {
        1
    } else if d == 3 || d == 5 || d == 7 {
        -1
    } else {
        0
    }
}

/// Change of index made by one step in direction `d`.
pub open spec fn ray_delta(d: int) -> int {
    8 * ray_dr(d) + ray_df(d)
}

/// How many steps in direction `d` lead from `sq` to `t`, where `t` is on
/// that ray.
pub open spec fn ray_dist(d: int, sq: int, t: int) -> int {
    if ray_dr(d) == 1 {
        t / 8 - sq / 8
    } else if ray_dr(d) == -1 {
        sq / 8 - t / 8
    } else if ray_df(d) == 1 {
        t % 8 - sq % 8
    } else {
        sq % 8 - t % 8
    }
}

/// Whether `t` is reached from `sq` by one or more steps in direction `d`
/// that all stay on the board: file and rank each change by the same number
/// of unit steps.
pub open spec fn on_ray(d: int, sq: int, t: int) -> bool {
    let k = ray_dist(d, sq, t);
    &&& 0 <= d < 8
    &&& 0 <= sq < 64
    &&& 0 <= t < 64
    &&& k >= 1
    &&& t % 8 - sq % 8 == scaled(ray_df(d), k)
    &&& t / 8 - sq / 8 == scaled(ray_dr(d), k)
}

/// The whole ray from `sq` in direction `d`, up to the edge of the board.
pub open spec fn ray_squares(d: int, sq: int) -> Set<int> {
    Set::new(|t: int| on_ray(d, sq, t))
}

/// Whether a slider on `sq` reaches `t` in direction `d`: `t` is on the ray
/// and no square of the ray before `t` is occupied. The first occupied
/// square itself is reached.
pub open spec fn visible(d: int, sq: int, occ: Set<int>, t: int) -> bool {
    &&& on_ray(d, sq, t)
    &&& forall|u: int|
        on_ray(d, sq, u) && ray_dist(d, sq, u) < ray_dist(d, sq, t) ==> !occ.contains(u)
}

/// The squares a slider on `sq` reaches along the directions `dirs`.
pub open spec fn sliding_targets(sq: int, occ: Set<int>, dirs: Seq<usize>) -> Set<int> {
    Set::new(
        |t: int| exists|i: int| 0 <= i < dirs.len() && visible(#[trigger] dirs[i] as int, sq, occ, t),
    )
}

/// Whether stepping from `sq` by `delta` lands on the board without the
/// file changing by more than one.
pub open spec fn step_lands(sq: int, delta: int, t: int) -> bool {
    &&& t == sq + delta
    &&& 0 <= t < 64
    &&& -1 <= sq % 8 - t % 8 <= 1
}

/// The squares reached from `sq` by one of the fixed steps `deltas`.
pub open spec fn step_targets(sq: int, deltas: Seq<i8>) -> Set<int> {
    Set::new(
        |t: int| exists|i: int| 0 <= i < deltas.len() && step_lands(sq, #[trigger] deltas[i] as int, t),
    )
}

/// Change of index made by a pawn of `side` that advances one rank.
pub open spec fn pawn_forward(side: Sides) -> int {
    match side {
        Sides::White => 8,
        Sides::Black => -8,
    }
}

/// The rank on which the pawns of `side` start.
pub open spec fn pawn_home_rank(side: Sides) -> int {
    match side {
        Sides::White => 1,
        Sides::Black => 6,
    }
}

/// The squares a pawn of `side` on `sq` may advance to: one rank forward if
/// that square is empty, two ranks from the home rank if both are empty.
pub open spec fn pawn_pushes(sq: int, side: Sides, occ: Set<int>) -> Set<int> {
    let one = sq + pawn_forward(side);
    let two = sq + 2 * pawn_forward(side);
    Set::new(
        |t: int|
            {
                ||| t == one && 0 <= t < 64 && !occ.contains(one)
                ||| t == two && sq / 8 == pawn_home_rank(side) && !occ.contains(one)
                    && !occ.contains(two)
            },
    )
}

/// On a ray, index and file and rank of a square all follow from the number
/// of steps to it: nothing on a ray lies across an edge of the board.
pub proof fn lemma_ray_is_a_line(d: int, sq: int, t: int)
    requires
        on_ray(d, sq, t),
    ensures
        1 <= ray_dist(d, sq, t) <= 7,
        t == sq + ray_dist(d, sq, t) * ray_delta(d),
        t % 8 == sq % 8 + ray_dist(d, sq, t) * ray_df(d),
        t / 8 == sq / 8 + ray_dist(d, sq, t) * ray_dr(d),
{
    let k = ray_dist(d, sq, t);
    assert(k * 1 == k);
    assert(k * (-1) == -k);
    assert(k * 0 == 0);
    assert(k * ray_df(d) == scaled(ray_df(d), k));
    assert(k * ray_dr(d) == scaled(ray_dr(d), k));
    assert(k * ray_delta(d) == 8 * scaled(ray_dr(d), k) + scaled(ray_df(d), k)) by (nonlinear_arith)
        requires
            ray_delta(d) == 8 * ray_dr(d) + ray_df(d),
            k * ray_df(d) == scaled(ray_df(d), k),
            k * ray_dr(d) == scaled(ray_dr(d), k),
    ;
}

/// A square reached by a fixed step lies at most one file from its source.
pub proof fn lemma_step_stays_near(sq: int, deltas: Seq<i8>, t: int)
    requires
        step_targets(sq, deltas).contains(t),
    ensures
        0 <= t < 64,
        -1 <= t % 8 - sq % 8 <= 1,
        exists|i: int| 0 <= i < deltas.len() && t - sq == #[trigger] deltas[i],
{
    let i = choose|i: int| 0 <= i < deltas.len() && step_lands(sq, #[trigger] deltas[i] as int, t);
    assert(t - sq == deltas[i]);
}

/// Every square a slider reaches lies on one of its rays, a whole number of
/// steps away along one line.
pub proof fn lemma_sliding_stays_on_line(sq: int, occ: Set<int>, dirs: Seq<usize>, t: int)
    requires
        sliding_targets(sq, occ, dirs).contains(t),
    ensures
        exists|i: int|
            0 <= i < dirs.len() && on_ray(#[trigger] dirs[i] as int, sq, t) && t == sq + ray_dist(
                dirs[i] as int,
                sq,
                t,
            ) * ray_delta(dirs[i] as int),
{
    let i = choose|i: int| 0 <= i < dirs.len() && visible(#[trigger] dirs[i] as int, sq, occ, t);
    lemma_ray_is_a_line(dirs[i] as int, sq, t);
}

/// One step in direction `d` from `cur`: it stays on the board exactly when
/// the index stays in range and the file changes by at most one.
proof fn lemma_one_step(d: int, cur: int)
    requires
        0 <= d < 8,
        0 <= cur < 64,
    ensures
        ({
            let next = cur + ray_delta(d);
            let stays = 0 <= next < 64 && -1 <= cur % 8 - next % 8 <= 1;
            &&& stays <==> (0 <= cur % 8 + ray_df(d) < 8 && 0 <= cur / 8 + ray_dr(d) < 8)
            &&& stays ==> next % 8 == cur % 8 + ray_df(d) && next / 8 == cur / 8 + ray_dr(d)
        }),
{
}

/// The precomputed rays: for each direction and square, the squares from
/// there to the edge of the board.
pub struct Rays {
    table: [[u64; 64]; 8],
}

impl Rays {
    #[verifier::type_invariant]
    spec fn inv(self) -> bool {
        forall|d: int, sq: int, t: int|
            0 <= d < 8 && 0 <= sq < 64 ==> (#[trigger] has_bit(self.table[d][sq], t) <==> on_ray(
                d,
                sq,
                t,
            ))
    }

    /// The entry of the table for direction `d` and square `sq`.
    pub closed spec fn entry(self, d: int, sq: int) -> Bitboard {
        Bitboard(self.table[d][sq])
    }

    /// The ray from `sq` in direction `d`.
    pub fn ray(&self, d: usize, sq: usize) -> (r: Bitboard)
        requires
            d < 8,
            sq < 64,
        ensures
            r == self.entry(d as int, sq as int),
            r@ == ray_squares(d as int, sq as int),
    {
        proof {
            use_type_invariant(self);
        }
        let r = Bitboard(self.table[d][sq]);
        assert(r@ =~= ray_squares(d as int, sq as int));
        r
    }
}

/// The index change of one step in direction `d`.
fn ray_step(d: usize) -> (r: i32)
    requires
        d < 8,
    ensures
        r == ray_delta(d as int),
{
    if d == 0 {
        1
    } else if d == 1 {
        -1
    } else if d == 2 {
        7
    } else if d == 3 {
        -7
    } else if d == 4 {
        8
    } else if d == 5 {
        -8
    } else if d == 6 {
        9
    } else {
        -9
    }
}

/// Walks from `sq` in direction `d`, one step at a time, until a step
/// leaves the board or changes the file by more than one.
fn walk_ray(d: usize, sq: usize) -> (m: u64)
    requires
        d < 8,
        sq < 64,
    ensures
        forall|t: int| has_bit(m, t) <==> on_ray(d as int, sq as int, t),
{
    let delta = ray_step(d);
    let mut m: u64 = 0;
    let mut cur: i32 = sq as i32;
    let mut k: i32 = 0;
    proof {
        lemma_zero();
    }
    loop
        invariant_except_break
            0 <= k <= 7,
            cur == sq || on_ray(d as int, sq as int, cur as int),
            cur == sq <==> k == 0,
            k > 0 ==> ray_dist(d as int, sq as int, cur as int) == k,
        invariant
            d < 8,
            sq < 64,
            0 <= cur < 64,
            delta == ray_delta(d as int),
            forall|t: int|
                has_bit(m, t) <==> on_ray(d as int, sq as int, t) && ray_dist(
                    d as int,
                    sq as int,
                    t,
                ) <= k,
        ensures
            forall|t: int| on_ray(d as int, sq as int, t) ==> ray_dist(d as int, sq as int, t) <= k,
        decreases 8 - k,
    {
        let next: i32 = cur + delta;
        proof {
            lemma_one_step(d as int, cur as int);
        }
        if next < 0 || next >= 64 {
            break ;
        }
        let file_diff: i32 = (cur % 8) - (next % 8);
        if file_diff > 1 || file_diff < -1 {
            break ;
        }
        let bit: u64 = crate::bits::single_bit(next as usize);
        proof {
            lemma_or(m, bit);
            let ds = d as int;
            let s = sq as int;
            assert(on_ray(ds, s, next as int) && ray_dist(ds, s, next as int) == k + 1);
            assert forall|t: int| on_ray(ds, s, t) && ray_dist(ds, s, t) == k + 1 implies t
                == next by {
                assert(t % 8 == next % 8);
                assert(t / 8 == next / 8);
            }
        }
        let ghost m0 = m;
        m = m | bit;
        cur = next;
        k = k + 1;
        proof {
            let ds = d as int;
            let s = sq as int;
            assert forall|t: int| has_bit(m, t) <==> on_ray(ds, s, t) && ray_dist(ds, s, t)
                <= k by {
                assert(has_bit(m, t) <==> has_bit(m0, t) || has_bit(bit, t));
                assert(has_bit(bit, t) <==> t == next);
                assert(has_bit(m0, t) <==> on_ray(ds, s, t) && ray_dist(ds, s, t) <= k - 1);
            }
        }
    }
    m
}

/// Builds the table of rays: for every direction and square, by repeated
/// single steps.
pub fn init_rays() -> (rays: Rays)
    ensures
        forall|d: int, sq: int|
            0 <= d < 8 && 0 <= sq < 64 ==> (#[trigger] rays.entry(d, sq))@ == ray_squares(d, sq),
{
    let mut table: [[u64; 64]; 8] = [[0u64; 64]; 8];
    let mut d: usize = 0;
    while d < 8
        invariant
            d <= 8,
            forall|dd: int, sq: int, t: int|
                0 <= dd < d && 0 <= sq < 64 ==> (#[trigger] has_bit(table[dd][sq], t) <==> on_ray(
                    dd,
                    sq,
                    t,
                )),
        decreases 8 - d,
    {
        let mut row: [u64; 64] = [0u64; 64];
        let mut sq: usize = 0;
        while sq < 64
            invariant
                d < 8,
                sq <= 64,
                forall|s: int, t: int|
                    0 <= s < sq ==> (#[trigger] has_bit(row[s], t) <==> on_ray(d as int, s, t)),
            decreases 64 - sq,
        {
            let m = walk_ray(d, sq);
            row[sq] = m;
            sq = sq + 1;
        }
        table[d] = row;
        d = d + 1;
    }
    let rays = Rays { table };
    proof {
        assert forall|d: int, sq: int| 0 <= d < 8 && 0 <= sq < 64 implies (#[trigger] rays.entry(
            d,
            sq,
        ))@ == ray_squares(d, sq) by {
            assert(rays.entry(d, sq)@ =~= ray_squares(d, sq));
        }
    }
    rays
}

/// Along a ray, squares further away have the larger index where a step
/// raises the index, and the smaller one where it lowers it.
proof fn lemma_ray_order(d: int, sq: int, u: int, t: int)
    requires
        on_ray(d, sq, u),
        on_ray(d, sq, t),
    ensures
        d % 2 == 0 ==> ((u < t) <==> ray_dist(d, sq, u) < ray_dist(d, sq, t)),
        d % 2 == 1 ==> ((u > t) <==> ray_dist(d, sq, u) < ray_dist(d, sq, t)),
{
}

/// The ray from a square `b` of a ray is the part of that ray beyond `b`.
proof fn lemma_ray_tail(d: int, sq: int, b: int, t: int)
    requires
        on_ray(d, sq, b),
    ensures
        on_ray(d, b, t) <==> on_ray(d, sq, t) && ray_dist(d, sq, t) > ray_dist(d, sq, b),
{
}

/// Whether a step in direction `d` raises the index.
fn ray_rises(d: usize) -> (r: bool)
    requires
        d < 8,
    ensures
        r == (d % 2 == 0),
        r == (ray_delta(d as int) > 0),
{
    d % 2 == 0
}

/// The squares a slider on `square` reaches in one direction: the ray up to
/// and including the nearest occupied square.
fn ray_attacks(rays: &Rays, square: usize, occupied: Bitboard, d: usize) -> (r: Bitboard)
    requires
        square < 64,
        d < 8,
    ensures
        forall|t: int| r@.contains(t) <==> visible(d as int, square as int, occupied@, t),
{
    let ray = rays.ray(d, square);
    let blockers: u64 = occupied.0 & ray.0;
    let ghost ds = d as int;
    let ghost s = square as int;
    proof {
        lemma_and(occupied.0, ray.0);
        lemma_zero();
        assert forall|u: int| has_bit(blockers, u) <==> occupied@.contains(u) && on_ray(ds, s, u) by {
            assert(ray@.contains(u) <==> on_ray(ds, s, u));
        }
    }
    if blockers == 0 {
        proof {
            assert forall|t: int| ray@.contains(t) <==> visible(ds, s, occupied@, t) by {
                assert(ray@.contains(t) <==> on_ray(ds, s, t));
                if on_ray(ds, s, t) {
                    assert forall|u: int| on_ray(ds, s, u) && ray_dist(ds, s, u) < ray_dist(ds, s, t)
                        implies !occupied@.contains(u) by {
                        assert(!has_bit(blockers, u));
                    }
                }
            }
        }
        return ray;
    }
    let blocker: usize = if ray_rises(d) {
        proof {
            lemma_lowest(blockers);
        }
        blockers.trailing_zeros() as usize
    } else {
        proof {
            lemma_highest(blockers);
            vstd::std_specs::bits::axiom_u64_leading_zeros(blockers);
        }
        (63 - blockers.leading_zeros()) as usize
    };
    let beyond = rays.ray(d, blocker);
    let r = Bitboard(ray.0 ^ beyond.0);
    proof {
        let b = blocker as int;
        assert(has_bit(blockers, b));
        assert(on_ray(ds, s, b) && occupied@.contains(b));
        lemma_xor(ray.0, beyond.0);
        assert forall|u: int| on_ray(ds, s, u) && occupied@.contains(u) implies ray_dist(ds, s, u)
            >= ray_dist(ds, s, b) by {
            assert(has_bit(blockers, u));
            lemma_ray_order(ds, s, u, b);
            if ray_dist(ds, s, u) < ray_dist(ds, s, b) {
                assert(!has_bit(blockers, u));
            }
        }
        assert forall|t: int| r@.contains(t) <==> visible(ds, s, occupied@, t) by {
            assert(ray@.contains(t) <==> on_ray(ds, s, t));
            assert(beyond@.contains(t) <==> on_ray(ds, b, t));
            lemma_ray_tail(ds, s, b, t);
            assert(r@.contains(t) <==> on_ray(ds, s, t) && ray_dist(ds, s, t) <= ray_dist(ds, s, b));
            if on_ray(ds, s, t) && ray_dist(ds, s, t) <= ray_dist(ds, s, b) {
                assert forall|u: int| on_ray(ds, s, u) && ray_dist(ds, s, u) < ray_dist(ds, s, t)
                    implies !occupied@.contains(u) by {
                    if occupied@.contains(u) {
                        assert(ray_dist(ds, s, u) >= ray_dist(ds, s, b));
                    }
                }
            }
        }
    }
    r
}

/// The squares that a sliding piece on `square` attacks along the given
/// directions, with the squares of `occupied` blocking it.
pub fn sliding_attacks(
    rays: &Rays,
    square: usize,
    occupied: Bitboard,
    ray_indices: &[usize],
) -> (attacks: Bitboard)
    requires
        square < 64,
        forall|i: int| 0 <= i < ray_indices@.len() ==> ray_indices@[i] < RAY_COUNT,
    ensures
        attacks@ == sliding_targets(square as int, occupied@, ray_indices@),
{
    let mut attacks = Bitboard(0);
    let n = ray_indices.len();
    let mut i: usize = 0;
    proof {
        lemma_zero();
    }
    while i < n
        invariant
            square < 64,
            n == ray_indices@.len(),
            i <= n,
            forall|j: int| 0 <= j < ray_indices@.len() ==> ray_indices@[j] < RAY_COUNT,
            forall|t: int|
                attacks@.contains(t) <==> exists|j: int|
                    0 <= j < i && visible(#[trigger] ray_indices@[j] as int, square as int, occupied@, t),
        decreases n - i,
    {
        let d = ray_indices[i];
        let part = ray_attacks(rays, square, occupied, d);
        let ghost before = attacks;
        attacks = Bitboard(attacks.0 | part.0);
        proof {
            lemma_or(before.0, part.0);
            assert forall|t: int|
                attacks@.contains(t) <==> exists|j: int|
                    0 <= j < i + 1 && visible(
                        #[trigger] ray_indices@[j] as int,
                        square as int,
                        occupied@,
                        t,
                    ) by {
                assert(attacks@.contains(t) <==> before@.contains(t) || part@.contains(t));
                assert(part@.contains(t) <==> visible(ray_indices@[i as int] as int, square as int, occupied@, t));
                if before@.contains(t) {
                    let j = choose|j: int|
                        0 <= j < i && visible(
                            #[trigger] ray_indices@[j] as int,
                            square as int,
                            occupied@,
                            t,
                        );
                    assert(0 <= j < i + 1);
                }
            }
        }
        i = i + 1;
    }
    assert(attacks@ =~= sliding_targets(square as int, occupied@, ray_indices@));
    attacks
}

/// The squares reached from `square` by one of the fixed steps `deltas`;
/// a step that leaves the board, or that changes the file by more than one,
/// reaches nothing.
pub fn step_attacks(square: usize, deltas: &[i8]) -> (attacks: Bitboard)
    requires
        square < 64,
    ensures
        attacks@ == step_targets(square as int, deltas@),
{
    let mut attacks = Bitboard(0);
    let n = deltas.len();
    let mut i: usize = 0;
    proof {
        lemma_zero();
    }
    while i < n
        invariant
            square < 64,
            n == deltas@.len(),
            i <= n,
            forall|t: int|
                attacks@.contains(t) <==> exists|j: int|
                    0 <= j < i && step_lands(square as int, #[trigger] deltas@[j] as int, t),
        decreases n - i,
    {
        let next: i32 = square as i32 + deltas[i] as i32;
        let ghost before = attacks;
        let mut added: u64 = 0;
        if next >= 0 && next < 64 {
            let file_diff: i32 = (square as i32 % 8) - (next % 8);
            if file_diff >= -1 && file_diff <= 1 {
                added = crate::bits::single_bit(next as usize);
            }
        }
        attacks = Bitboard(attacks.0 | added);
        proof {
            let delta = deltas@[i as int] as int;
            let landed = step_lands(square as int, delta, next as int);
            assert(next == square + delta);
            lemma_zero();
            assert forall|t: int| has_bit(added, t) <==> landed && t == next by {}
            lemma_or(before.0, added);
            assert forall|t: int|
                attacks@.contains(t) <==> exists|j: int|
                    0 <= j < i + 1 && step_lands(square as int, #[trigger] deltas@[j] as int, t) by {
                assert(attacks@.contains(t) <==> has_bit(before.0, t) || has_bit(added, t));
                assert(before@.contains(t) <==> has_bit(before.0, t));
                assert(attacks@.contains(t) <==> before@.contains(t) || step_lands(
                    square as int,
                    delta,
                    t,
                ));
                if before@.contains(t) {
                    let j = choose|j: int|
                        0 <= j < i && step_lands(square as int, #[trigger] deltas@[j] as int, t);
                    assert(0 <= j < i + 1);
                }
            }
        }
        i = i + 1;
    }
    assert(attacks@ =~= step_targets(square as int, deltas@));
    attacks
}

/// The squares to which a pawn of `side` on `square` may advance.
pub fn pawn_moves(square: usize, side: Sides, occupied: Bitboard) -> (moves: Bitboard)
    requires
        square < 64,
    ensures
        moves@ == pawn_pushes(square as int, side, occupied@),
{
    let white = match side {
        Sides::White => true,
        Sides::Black => false,
    };
    let home: usize = if white {
        1
    } else {
        6
    };
    let on_board = if white {
        square + 8 < 64
    } else {
        square >= 8
    };
    let mut first: u64 = 0;
    let mut second: u64 = 0;
    let ghost one = square as int + pawn_forward(side);
    let ghost two = square as int + 2 * pawn_forward(side);
    let ghost may_one = 0 <= one < 64 && !occupied@.contains(one);
    let ghost may_two = square as int / 8 == pawn_home_rank(side) && !occupied@.contains(one)
        && !occupied@.contains(two);
    proof {
        lemma_zero();
    }
    if on_board {
        let next: usize = if white {
            square + 8
        } else {
            square - 8
        };
        if !occupied.contains(next) {
            first = crate::bits::single_bit(next);
            if square / 8 == home {
                let last: usize = if white {
                    square + 16
                } else {
                    square - 16
                };
                if !occupied.contains(last) {
                    second = crate::bits::single_bit(last);
                }
            }
        }
    }
    let moves = Bitboard(first | second);
    proof {
        lemma_or(first, second);
        assert forall|t: int| has_bit(first, t) <==> may_one && t == one by {}
        assert forall|t: int| has_bit(second, t) <==> may_two && t == two by {}
        let pushes = pawn_pushes(square as int, side, occupied@);
        assert forall|t: int| moves@.contains(t) == pushes.contains(t) by {
            assert(moves@.contains(t) <==> has_bit(first, t) || has_bit(second, t));
            assert(pushes.contains(t) <==> (may_one && t == one) || (may_two && t == two));
        }
        assert(moves@ =~= pushes);
    }
    moves
}

} // verus!
