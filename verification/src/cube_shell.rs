//! Cube shells: the lattice points at one Chebyshev distance from a centre.

use crate::block_position::{chebyshev, BlockPosition, MAX_RADIUS};
use crate::surroundings_loader::radius_between;
use vstd::prelude::*;

verus! {

/// Whether `(ax, ay, az)` comes at or after `(bx, by, bz)` in the order that
/// compares x first, then y, then z.
pub open spec fn at_or_after(ax: int, ay: int, az: int, bx: int, by: int, bz: int) -> bool {
    ax > bx || (ax == bx && (ay > by || (ay == by && az >= bz)))
}

/// The points of the shell of radius `r` around `center`, from the point
/// `(dx, dy, dz)` away from the centre onwards, in the order that visits
/// the cube of radius `r` with x slowest and z fastest.
pub open spec fn shell_from(center: BlockPosition, r: int, dx: int, dy: int, dz: int) -> Seq<BlockPosition>
    decreases r - dx + 1, r - dy + 1, r - dz + 1,
{
    if dx > r || dx < -r || dy < -r || dz < -r {
        Seq::empty()
    } else if dy > r {
        shell_from(center, r, dx + 1, -r, -r)
    } else if dz > r {
        shell_from(center, r, dx, dy + 1, -r)
    } else if chebyshev(center, center.spec_offset(dx, dy, dz)) == r {
        seq![center.spec_offset(dx, dy, dz)] + shell_from(center, r, dx, dy, dz + 1)
    } else {
        shell_from(center, r, dx, dy, dz + 1)
    }
}

/// The points of the shell of radius `r` around `center`: those at
/// Chebyshev distance `r` from it, ordered by x, then y, then z.
pub open spec fn spec_cube_shell(center: BlockPosition, r: int) -> Seq<BlockPosition> {
    shell_from(center, r, -r, -r, -r)
}

/// The points that are in the shell of radius `r` around exactly one of two
/// centres: first those around `from`, then those around `to`.
pub open spec fn spec_cube_diff(from: BlockPosition, to: BlockPosition, r: int) -> Seq<BlockPosition> {
    spec_cube_shell(from, r).filter(|p: BlockPosition| chebyshev(to, p) != r) + spec_cube_shell(to, r).filter(
        |p: BlockPosition| chebyshev(from, p) != r,
    )
}

proof fn lemma_contains_cons(x: BlockPosition, rest: Seq<BlockPosition>, p: BlockPosition)
    ensures
        (seq![x] + rest).contains(p) <==> p == x || rest.contains(p),
{
    let s = seq![x] + rest;
    if s.contains(p) {
        let i = choose|i: int| 0 <= i < s.len() && s[i] == p;
        if i > 0 {
            assert(rest[i - 1] == p);
        }
    }
    if p == x {
        assert(s[0] == p);
    }
    if rest.contains(p) {
        let i = choose|i: int| 0 <= i < rest.len() && rest[i] == p;
        assert(s[i + 1] == p);
    }
}

proof fn lemma_no_duplicates_cons(x: BlockPosition, rest: Seq<BlockPosition>)
    requires
        rest.no_duplicates(),
        !rest.contains(x),
    ensures
        (seq![x] + rest).no_duplicates(),
{
    let s = seq![x] + rest;
    assert forall|i: int, j: int| 0 <= i < s.len() && 0 <= j < s.len() && i != j implies s[i] != s[j] by {
        if i > 0 && j > 0 {
            assert(s[i] == rest[i - 1] && s[j] == rest[j - 1]);
        } else if i > 0 {
            assert(s[i] == rest[i - 1]);
        } else {
            assert(s[j] == rest[j - 1]);
        }
    }
}

/// A point is among the points of a shell from a place onwards just where
/// it is on the shell and at or after that place; and none occurs twice.
pub proof fn lemma_shell_from(center: BlockPosition, r: int, dx: int, dy: int, dz: int, p: BlockPosition)
    requires
        center.in_range(),
        0 <= r <= MAX_RADIUS,
        -r <= dx <= r + 1,
        -r <= dy <= r + 1,
        -r <= dz <= r + 1,
    ensures
        shell_from(center, r, dx, dy, dz).contains(p) <==> chebyshev(center, p) == r && at_or_after(
            p.x - center.x,
            p.y - center.y,
            p.z - center.z,
            dx,
            dy,
            dz,
        ),
        shell_from(center, r, dx, dy, dz).no_duplicates(),
    decreases r - dx + 1, r - dy + 1, r - dz + 1,
{
    if dx > r {
    } else if dy > r {
        lemma_shell_from(center, r, dx + 1, -r, -r, p);
    } else if dz > r {
        lemma_shell_from(center, r, dx, dy + 1, -r, p);
    } else {
        let cell = center.spec_offset(dx, dy, dz);
        let rest = shell_from(center, r, dx, dy, dz + 1);
        lemma_shell_from(center, r, dx, dy, dz + 1, p);
        lemma_shell_from(center, r, dx, dy, dz + 1, cell);
        if chebyshev(center, cell) == r {
            lemma_contains_cons(cell, rest, p);
            lemma_no_duplicates_cons(cell, rest);
        }
    }
}

/// A point is in a cube shell just where its Chebyshev distance from the
/// centre is the radius, and no point occurs twice in it.
pub proof fn lemma_cube_shell(center: BlockPosition, r: int, p: BlockPosition)
    requires
        center.in_range(),
        r <= MAX_RADIUS,
    ensures
        spec_cube_shell(center, r).contains(p) <==> chebyshev(center, p) == r,
        spec_cube_shell(center, r).no_duplicates(),
{
    if r >= 0 {
        lemma_shell_from(center, r, -r, -r, -r, p);
    }
}

proof fn lemma_filter_no_duplicates(s: Seq<BlockPosition>, pred: spec_fn(BlockPosition) -> bool)
    requires
        s.no_duplicates(),
    ensures
        s.filter(pred).no_duplicates(),
    decreases s.len(),
{
    reveal(Seq::filter);
    if s.len() > 0 {
        let t = s.drop_last();
        lemma_filter_no_duplicates(t, pred);
        if pred(s.last()) {
            let f = t.filter(pred);
            if f.contains(s.last()) {
                t.lemma_filter_contains_rev(pred, s.last());
                let i = choose|i: int| 0 <= i < t.len() && t[i] == s.last();
                assert(s[i] == s[s.len() - 1]);
            }
            assert forall|i: int, j: int|
                0 <= i < f.push(s.last()).len() && 0 <= j < f.push(s.last()).len() && i != j implies f.push(
                s.last(),
            )[i] != f.push(s.last())[j] by {
                if i == f.len() {
                    assert(f[j] != s.last());
                } else if j == f.len() {
                    assert(f[i] != s.last());
                }
            }
        }
    }
}

proof fn lemma_filter_membership(s: Seq<BlockPosition>, pred: spec_fn(BlockPosition) -> bool, p: BlockPosition)
    ensures
        s.filter(pred).contains(p) <==> s.contains(p) && pred(p),
{
    let f = s.filter(pred);
    if f.contains(p) {
        let i = choose|i: int| 0 <= i < f.len() && f[i] == p;
        s.lemma_filter_pred(pred, i);
        s.lemma_filter_contains_rev(pred, p);
    }
    if s.contains(p) && pred(p) {
        let i = choose|i: int| 0 <= i < s.len() && s[i] == p;
        s.lemma_filter_contains(pred, i);
    }
}

/// A point is in the difference of two cube shells just where it is at the
/// radius from exactly one of the two centres, and no point occurs twice
/// in it.
pub proof fn lemma_cube_diff(from: BlockPosition, to: BlockPosition, r: int, p: BlockPosition)
    requires
        from.in_range(),
        to.in_range(),
        r <= MAX_RADIUS,
    ensures
        spec_cube_diff(from, to, r).contains(p) <==> (chebyshev(from, p) == r) != (chebyshev(to, p) == r),
        spec_cube_diff(from, to, r).no_duplicates(),
{
    let keep_from = |p: BlockPosition| chebyshev(to, p) != r;
    let keep_to = |p: BlockPosition| chebyshev(from, p) != r;
    let a = spec_cube_shell(from, r);
    let b = spec_cube_shell(to, r);
    let fa = a.filter(keep_from);
    let fb = b.filter(keep_to);
    lemma_cube_shell(from, r, p);
    lemma_cube_shell(to, r, p);
    lemma_filter_membership(a, keep_from, p);
    lemma_filter_membership(b, keep_to, p);
    lemma_filter_no_duplicates(a, keep_from);
    lemma_filter_no_duplicates(b, keep_to);
    assert forall|i: int, j: int| 0 <= i < fa.len() && 0 <= j < fb.len() implies fa[i] != fb[j] by {
        lemma_cube_shell(from, r, fa[i]);
        lemma_cube_shell(to, r, fb[j]);
        assert(fa.contains(fa[i]));
        assert(fb.contains(fb[j]));
        lemma_filter_membership(a, keep_from, fa[i]);
        lemma_filter_membership(b, keep_to, fb[j]);
    }
    vstd::seq_lib::lemma_no_dup_in_concat(fa, fb);
    let d = fa + fb;
    if d.contains(p) {
        let i = choose|i: int| 0 <= i < d.len() && d[i] == p;
        if i < fa.len() {
            assert(fa[i] == p);
        } else {
            assert(fb[i - fa.len()] == p);
        }
    }
    if fa.contains(p) {
        let i = choose|i: int| 0 <= i < fa.len() && fa[i] == p;
        assert(d[i] == p);
    }
    if fb.contains(p) {
        let i = choose|i: int| 0 <= i < fb.len() && fb[i] == p;
        assert(d[fa.len() + i] == p);
    }
}

/// Taking the next point of a shell: where the point at the place is on
/// the shell, it is the next one, and otherwise the place is passed over.
proof fn lemma_shell_next(shell: Seq<BlockPosition>, center: BlockPosition, r: int, dx: int, dy: int, dz: int)
    requires
        center.in_range(),
        0 <= r <= MAX_RADIUS,
        -r <= dx <= r,
        -r <= dy <= r,
        -r <= dz <= r,
    ensures
        chebyshev(center, center.spec_offset(dx, dy, dz)) == r ==> shell.push(center.spec_offset(dx, dy, dz))
            + shell_from(center, r, dx, dy, dz + 1) == shell + shell_from(center, r, dx, dy, dz),
        chebyshev(center, center.spec_offset(dx, dy, dz)) != r ==> shell_from(center, r, dx, dy, dz + 1)
            == shell_from(center, r, dx, dy, dz),
        chebyshev(center, center.spec_offset(dx, dy, dz)) == r <==> (dx == r || dx == -r || dy == r || dy == -r
            || dz == r || dz == -r),
{
    let cell = center.spec_offset(dx, dy, dz);
    if chebyshev(center, cell) == r {
        assert(shell.push(cell) + shell_from(center, r, dx, dy, dz + 1) =~= shell + (seq![cell] + shell_from(
            center,
            r,
            dx,
            dy,
            dz + 1,
        )));
    }
}

/// Inside a column that only touches the shell at its two ends, nothing
/// lies between the low end and the high end.
proof fn lemma_shell_skip(center: BlockPosition, r: int, dx: int, dy: int, dz: int)
    requires
        center.in_range(),
        0 <= r <= MAX_RADIUS,
        -r < dx < r,
        -r < dy < r,
        -r < dz <= r,
    ensures
        shell_from(center, r, dx, dy, dz) == shell_from(center, r, dx, dy, r),
    decreases r - dz,
{
    if dz < r {
        lemma_shell_next(Seq::empty(), center, r, dx, dy, dz);
        lemma_shell_skip(center, r, dx, dy, dz + 1);
    }
}

/// Generate the set of points corresponding to the surface of a cube made
/// of blocks: every position at Chebyshev distance `radius` from `center`,
/// once, ordered by x, then y, then z. A negative radius gives no points.
pub fn cube_shell(center: &BlockPosition, radius: i32) -> (shell: Vec<BlockPosition>)
    requires
        center.in_range(),
        radius <= MAX_RADIUS,
    ensures
        shell@ == spec_cube_shell(*center, radius as int),
{
    let mut shell: Vec<BlockPosition> = Vec::new();
    if radius < 0 {
        return shell;
    }
    let ghost full = spec_cube_shell(*center, radius as int);
    let ghost r = radius as int;
    let mut dx: i32 = -radius;
    assert(shell@ + shell_from(*center, r, dx as int, -r, -r) =~= full);
    while dx <= radius
        invariant
            center.in_range(),
            0 <= radius <= MAX_RADIUS,
            r == radius,
            -r <= dx <= r + 1,
            full == spec_cube_shell(*center, r),
            shell@ + shell_from(*center, r, dx as int, -r, -r) == full,
        decreases radius - dx + 1,
    {
        let mut dy: i32 = -radius;
        while dy <= radius
            invariant
                center.in_range(),
                0 <= radius <= MAX_RADIUS,
                r == radius,
                -r <= dx <= r,
                -r <= dy <= r + 1,
                shell@ + shell_from(*center, r, dx as int, dy as int, -r) == full,
            decreases radius - dy + 1,
        {
            if dx == -radius || dx == radius || dy == -radius || dy == radius {
                let mut dz: i32 = -radius;
                while dz <= radius
                    invariant
                        center.in_range(),
                        0 <= radius <= MAX_RADIUS,
                        r == radius,
                        -r <= dx <= r,
                        -r <= dy <= r,
                        -r <= dz <= r + 1,
                        dx == -radius || dx == radius || dy == -radius || dy == radius,
                        shell@ + shell_from(*center, r, dx as int, dy as int, dz as int) == full,
                    decreases radius - dz + 1,
                {
                    proof {
                        lemma_shell_next(shell@, *center, r, dx as int, dy as int, dz as int);
                    }
                    shell.push(center.offset(dx, dy, dz));
                    dz = dz + 1;
                }
            } else {
                proof {
                    lemma_shell_next(shell@, *center, r, dx as int, dy as int, -r);
                    lemma_shell_skip(*center, r, dx as int, dy as int, -r + 1);
                    lemma_shell_next(
                        shell@.push(center.spec_offset(dx as int, dy as int, -r)),
                        *center,
                        r,
                        dx as int,
                        dy as int,
                        r,
                    );
                }
                shell.push(center.offset(dx, dy, -radius));
                shell.push(center.offset(dx, dy, radius));
            }
            dy = dy + 1;
        }
        dx = dx + 1;
    }
    assert(shell@ + Seq::<BlockPosition>::empty() =~= shell@);
    shell
}

/// Return the blocks that are on the shell of radius `radius` around
/// exactly one of `from` and `to`: those around `from` first, then those
/// around `to`, each part ordered by x, then y, then z.
pub fn cube_diff(from: &BlockPosition, to: &BlockPosition, radius: i32) -> (diff: Vec<BlockPosition>)
    requires
        from.in_range(),
        to.in_range(),
        radius <= MAX_RADIUS,
    ensures
        diff@ == spec_cube_diff(*from, *to, radius as int),
{
    let mut diff: Vec<BlockPosition> = Vec::new();
    let ghost keep_from = |p: BlockPosition| chebyshev(*to, p) != radius as int;
    let ghost keep_to = |p: BlockPosition| chebyshev(*from, p) != radius as int;
    let around_from = cube_shell(from, radius);
    let around_to = cube_shell(to, radius);
    let mut i: usize = 0;
    proof {
        reveal(Seq::filter);
        assert(around_from@.take(0) =~= Seq::empty());
    }
    while i < around_from.len()
        invariant
            from.in_range(),
            to.in_range(),
            radius <= MAX_RADIUS,
            i <= around_from@.len(),
            around_from@ == spec_cube_shell(*from, radius as int),
            keep_from == |p: BlockPosition| chebyshev(*to, p) != radius as int,
            diff@ == around_from@.take(i as int).filter(keep_from),
        decreases around_from@.len() - i,
    {
        let p = around_from[i];
        proof {
            lemma_cube_shell(*from, radius as int, p);
            assert(around_from@.contains(p));
            assert(around_from@.take(i + 1) =~= around_from@.take(i as int).push(p));
            around_from@.take(i as int).lemma_filter_push(p, keep_from);
        }
        if radius_between(to, &p) != radius {
            diff.push(p);
        }
        i = i + 1;
    }
    let ghost first = diff@;
    proof {
        assert(around_from@.take(i as int) =~= around_from@);
        reveal(Seq::filter);
        assert(around_to@.take(0) =~= Seq::empty());
        assert(first + Seq::<BlockPosition>::empty() =~= first);
    }
    let mut j: usize = 0;
    while j < around_to.len()
        invariant
            from.in_range(),
            to.in_range(),
            radius <= MAX_RADIUS,
            j <= around_to@.len(),
            around_to@ == spec_cube_shell(*to, radius as int),
            keep_to == |p: BlockPosition| chebyshev(*from, p) != radius as int,
            diff@ == first + around_to@.take(j as int).filter(keep_to),
        decreases around_to@.len() - j,
    {
        let p = around_to[j];
        proof {
            lemma_cube_shell(*to, radius as int, p);
            assert(around_to@.contains(p));
            assert(around_to@.take(j + 1) =~= around_to@.take(j as int).push(p));
            around_to@.take(j as int).lemma_filter_push(p, keep_to);
            assert((first + around_to@.take(j as int).filter(keep_to)).push(p) =~= first + around_to@.take(
                j as int,
            ).filter(keep_to).push(p));
        }
        if radius_between(from, &p) != radius {
            diff.push(p);
        }
        j = j + 1;
    }
    proof {
        assert(around_to@.take(j as int) =~= around_to@);
    }
    diff
}

} // verus!
