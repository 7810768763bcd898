//! Random choices taken from the game's shared generator.
use vstd::prelude::*;

verus! {

/// The outcome of trying the offsets `offs` around `center` in turn: the
/// first cell that `stop` accepts ends the tries with nothing, the first that
/// `hit` accepts is the result; when none does, nothing.
pub open spec fn first_try(
    center: (int, int),
    offs: Seq<(int, int)>,
    hit: spec_fn((int, int)) -> bool,
    stop: spec_fn((int, int)) -> bool,
) -> Option<(int, int)>
    decreases offs.len(),
{
    if offs.len() == 0 {
        None
    } else {
        let c = (center.0 + offs[0].0, center.1 + offs[0].1);
        if stop(c) {
            None
        } else if hit(c) {
            Some(c)
        } else {
            first_try(center, offs.drop_first(), hit, stop)
        }
    }
}

/// Every offset lies in `lo..=hi` on both axes.
pub open spec fn offsets_in(offs: Seq<(int, int)>, lo: int, hi: int) -> bool {
    forall|k: int| 0 <= k < offs.len() ==> lo <= (#[trigger] offs[k]).0 <= hi && lo <= offs[k].1 <= hi
}

/// Tries that neither stop nor hit can be skipped.
pub proof fn lemma_first_try_skip(
    center: (int, int),
    tried: Seq<(int, int)>,
    rest: Seq<(int, int)>,
    hit: spec_fn((int, int)) -> bool,
    stop: spec_fn((int, int)) -> bool,
)
    requires
        forall|k: int|
            0 <= k < tried.len() ==> !stop((center.0 + (#[trigger] tried[k]).0, center.1 + tried[k].1)) && !hit(
                (center.0 + tried[k].0, center.1 + tried[k].1),
            ),
    ensures
        first_try(center, tried + rest, hit, stop) == first_try(center, rest, hit, stop),
    decreases tried.len(),
{
    if tried.len() > 0 {
        assert((tried + rest).drop_first() =~= tried.drop_first() + rest);
        assert((tried + rest)[0] == tried[0]);
        assert forall|k: int|
            0 <= k < tried.drop_first().len() implies !stop((center.0 + (#[trigger] tried.drop_first()[k]).0, center.1 + tried.drop_first()[k].1)) && !hit(
                (center.0 + tried.drop_first()[k].0, center.1 + tried.drop_first()[k].1),
            ) by {
            assert(tried.drop_first()[k] == tried[k + 1]);
        }
        lemma_first_try_skip(center, tried.drop_first(), rest, hit, stop);
    }
}

/// A cell as a tile position.
pub open spec fn cell_pos(c: (int, int)) -> crate::tiles::TilePos {
    crate::tiles::TilePos { x: c.0 as i32, y: c.1 as i32 }
}

/// The tile of an outcome of `first_try`.
pub open spec fn try_pos(r: Option<(int, int)>) -> Option<crate::tiles::TilePos> {
    match r {
        Some(c) => Some(cell_pos(c)),
        None => None,
    }
}

/// A uniformly drawn integer in `0..n` from macroquad's global generator
/// (`macroquad::rand::gen_range(0u32, n)`). For `n` up to 2^20 the
/// floating-point scaling there is exact, so the result is below `n`; which
/// value comes back depends on the generator's hidden state.
#[verifier::external_body]
pub(crate) fn random_below(n: u32) -> (r: u32)
    requires
        0 < n <= 0x10_0000,
    ensures
        r < n,
{
    macroquad::rand::gen_range(0u32, n)
}

/// A random `i32` from the rand crate's thread-local generator
/// (`rand::random::<i32>()`); any value can come back.
#[verifier::external_body]
pub(crate) fn random_i32() -> (r: i32) {
    rand::random::<i32>()
}

/// A random index below `n`, for any `n`: one draw of `random_below` when
/// `n` is at most 2^20; otherwise draws of twenty bits each are put together
/// until they span `n` values or more, and the result is taken modulo `n`,
/// so that every index can come back.
pub(crate) fn random_index(n: usize) -> (r: usize)
    requires
        0 < n,
    ensures
        r < n,
{
    if n <= 0x10_0000 {
        return random_below(n as u32) as usize;
    }
    let target: u128 = n as u128;
    let mut acc: u128 = 0;
    let mut span: u128 = 1;
    while span < target
        invariant
            target == n as u128,
            target <= 0x1_0000_0000_0000_0000,
            1 <= span,
            span < target * 0x10_0000,
            acc < span,
        decreases target * 0x10_0000 - span,
    {
        let digit = random_below(0x10_0000) as u128;
        assert(acc * 0x10_0000 + digit < span * 0x10_0000) by (nonlinear_arith)
            requires
                acc < span,
                digit < 0x10_0000,
        ;
        assert(span * 0x10_0000 < target * 0x10_0000) by (nonlinear_arith)
            requires
                span < target,
        ;
        assert(target * 0x10_0000 <= 0x10_0000 * 0x1_0000_0000_0000_0000) by (nonlinear_arith)
            requires
                target <= 0x1_0000_0000_0000_0000,
        ;
        acc = acc * 0x10_0000 + digit;
        span = span * 0x10_0000;
    }
    (acc % target) as usize
}

} // verus!
