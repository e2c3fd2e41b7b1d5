//! The sampler: draws points uniformly from a square lattice and counts those
//! inside the inscribed disc.
use rand::rngs::ThreadRng;
use rand::Rng;
use vstd::prelude::*;

verus! {

/// Half the side of the sampling square, in lattice steps. A coordinate is an
/// integer in `[-SCALE, SCALE]`, standing for the real number `c / SCALE` in
/// `[-1, 1]`.
pub const SCALE: i64 = 1073741824;

/// A point lies in the closed sampling square.
pub open spec fn in_square(x: int, y: int) -> bool {
    -SCALE <= x <= SCALE && -SCALE <= y <= SCALE
}

/// A point lies in the closed disc of radius `SCALE` (points on the circle count).
pub open spec fn inside_disc(x: int, y: int) -> bool {
    x * x + y * y <= SCALE * SCALE
}

/// Every point of a sequence lies in the sampling square.
pub open spec fn all_in_square(pts: Seq<(int, int)>) -> bool {
    forall|i: int| 0 <= i < pts.len() ==> #[trigger] in_square(pts[i].0, pts[i].1)
}

/// How many points of a sequence lie inside the disc.
pub open spec fn hit_count(pts: Seq<(int, int)>) -> nat
    decreases pts.len(),
{
    if pts.len() == 0 {
        0
    } else {
        let p = pts.last();
        hit_count(pts.drop_last()) + if inside_disc(p.0, p.1) {
            1nat
        } else {
            0nat
        }
    }
}

/// Counting the hits of two sequences of points one after the other gives
/// the hits of the two sequences taken apart, added.
pub proof fn lemma_hit_count_concat(a: Seq<(int, int)>, b: Seq<(int, int)>)
    ensures
        hit_count(a + b) == hit_count(a) + hit_count(b),
    decreases b.len(),
{
    if b.len() == 0 {
        assert(a + b =~= a);
    } else {
        assert((a + b).drop_last() =~= a + b.drop_last());
        lemma_hit_count_concat(a, b.drop_last());
    }
}

/// Whether a point of the square is a hit.
pub fn is_hit(x: i64, y: i64) -> (r: bool)
    requires
        in_square(x as int, y as int),
    ensures
        r == inside_disc(x as int, y as int),
{
    assert(0 <= x * x <= SCALE * SCALE) by (nonlinear_arith)
        requires
            -SCALE <= x <= SCALE,
            SCALE == 1073741824,
    ;
    assert(0 <= y * y <= SCALE * SCALE) by (nonlinear_arith)
        requires
            -SCALE <= y <= SCALE,
            SCALE == 1073741824,
    ;
    let xx: i64 = x * x;
    let yy: i64 = y * y;
    xx + yy <= SCALE * SCALE
}

/// The generator type of rand, carried opaquely between its own calls.
#[verifier::external_type_specification]
#[verifier::external_body]
pub struct ExThreadRng(ThreadRng);

/// Relies on rand::rng: a handle to the calling thread's own generator, so
/// that concurrent samplers share no generator state.
#[verifier::external_body]
fn thread_generator() -> ThreadRng {
    rand::rng()
}

/// Relies on rand::Rng::random_range over an inclusive range: the value lies
/// between the bounds, both included; the call panics only on an empty range.
#[verifier::external_body]
fn draw_between(rng: &mut ThreadRng, lo: i64, hi: i64) -> (r: i64)
    requires
        lo <= hi,
    ensures
        lo <= r <= hi,
{
    rng.random_range(lo..=hi)
}

/// A source of random points of the square, owned by one sampler, with a
/// record of every point it has handed out.
pub struct Generator {
    rng: ThreadRng,
    drawn: Ghost<Seq<(int, int)>>,
}

impl Generator {
    /// The points drawn from this generator so far, oldest first.
    pub closed spec fn history(&self) -> Seq<(int, int)> {
        self.drawn@
    }

    /// A generator backed by the calling thread's own random state, with
    /// nothing drawn yet.
    pub fn new() -> (g: Generator)
        ensures
            g.history() == Seq::<(int, int)>::empty(),
    {
        Generator { rng: thread_generator(), drawn: Ghost(Seq::empty()) }
    }

    /// Draws one point of the square, each coordinate uniformly from
    /// `[-SCALE, SCALE]`.
    pub fn draw_point(&mut self) -> (p: (i64, i64))
        ensures
            in_square(p.0 as int, p.1 as int),
            final(self).history() == old(self).history().push((p.0 as int, p.1 as int)),
    {
        let x = draw_between(&mut self.rng, -SCALE, SCALE);
        let y = draw_between(&mut self.rng, -SCALE, SCALE);
        self.drawn = Ghost(self.drawn@.push((x as int, y as int)));
        (x, y)
    }
}

/// Draws exactly `n` points from `g` and returns how many of them fell
/// inside the disc.
pub fn sample_hits(g: &mut Generator, n: u64) -> (hits: u64)
    ensures
        final(g).history().len() == old(g).history().len() + n,
        final(g).history().take(old(g).history().len() as int) == old(g).history(),
        all_in_square(final(g).history().skip(old(g).history().len() as int)),
        hits == hit_count(final(g).history().skip(old(g).history().len() as int)),
{
    let ghost start = g.history();
    let mut hits: u64 = 0;
    let mut i: u64 = 0;
    assert(g.history().skip(start.len() as int) =~= Seq::<(int, int)>::empty());
    assert(g.history().take(start.len() as int) =~= start);
    while i < n
        invariant
            i <= n,
            hits <= i,
            g.history().len() == start.len() + i,
            g.history().take(start.len() as int) == start,
            all_in_square(g.history().skip(start.len() as int)),
            hit_count(g.history().skip(start.len() as int)) == hits,
        decreases n - i,
    {
        let ghost before = g.history();
        let (x, y) = g.draw_point();
        let hit = is_hit(x, y);
        proof {
            let k = start.len() as int;
            let old_drawn = before.skip(k);
            let drawn = g.history().skip(k);
            assert(drawn =~= old_drawn.push((x as int, y as int)));
            assert(drawn.drop_last() =~= old_drawn);
            assert(g.history().take(k) =~= before.take(k));
            assert forall|j: int| 0 <= j < drawn.len() implies #[trigger] in_square(
                drawn[j].0,
                drawn[j].1,
            ) by {
                if j < old_drawn.len() {
                    assert(drawn[j] == old_drawn[j]);
                }
            }
        }
        if hit {
            hits = hits + 1;
        }
        i = i + 1;
    }
    hits
}

} // verus!
