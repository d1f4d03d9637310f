//! The event loop's decisions: how long to wait for input, when the animations advance,
//! which boards an input or an animation step leaves to be drawn, and whether a frame is
//! owed. The caller keeps the clock and the animations and reports what happened.
use vstd::prelude::*;

use crate::app::{AppModel, AppState};
use crate::config::Context;
use crate::grid::{GRID_COLS, GRID_ROWS};
use crate::input::InputResult;
use crate::render::{all_wf, instances_view};
use crate::runtime::RuntimeModel;

verus! {

/// How long to wait for the next input.
#[derive(Clone, Copy, PartialEq, Eq, Structural, Debug)]
pub enum Wait {
    /// Until an input comes.
    Forever,
    /// Not at all.
    Now,
    /// At most this many microseconds.
    Micros(u64),
}

/// The length of a frame in microseconds at `fps` frames per second (at least one).
pub fn frame_micros(fps: u64) -> (d: u64)
    ensures
        d == 1_000_000u64 / (if fps == 0 {
            1u64
        } else {
            fps
        }),
{
    let f = if fps == 0 {
        1
    } else {
        fps
    };
    1_000_000 / f
}

/// How long to wait for input, `elapsed` microseconds into a frame of `frame`
/// microseconds. With a variable frame rate: not at all while a disk is falling, else
/// until an input comes; otherwise the rest of the frame.
pub fn poll_wait(vfr: bool, animating: bool, frame: u64, elapsed: u64) -> (w: Wait)
    ensures
        vfr && !animating ==> w == Wait::Forever,
        vfr && animating ==> w == Wait::Now,
        !vfr ==> w == Wait::Micros(
            if elapsed >= frame {
                0
            } else {
                (frame - elapsed) as u64
            },
        ),
{
    if vfr && !animating {
        Wait::Forever
    } else if vfr {
        Wait::Now
    } else if elapsed >= frame {
        Wait::Micros(0)
    } else {
        Wait::Micros(frame - elapsed)
    }
}

/// Whether the animations advance now: after every input with a variable frame rate,
/// else once a whole frame has passed.
pub fn tick_due(vfr: bool, frame: u64, elapsed: u64) -> (b: bool)
    ensures
        b == (vfr || elapsed >= frame),
{
    vfr || elapsed >= frame
}

/// Every board marked to be drawn.
pub open spec fn all_dirty(s: Seq<RuntimeModel>) -> Seq<RuntimeModel> {
    s.map_values(|r: RuntimeModel| RuntimeModel { dirty: true, ..r })
}

/// Whether a disk is falling on any board.
pub open spec fn any_animating(m: AppModel) -> bool {
    exists|i: int, c: int, r: int|
        0 <= i < m.instances.len() && 0 <= c < GRID_COLS && 0 <= r < GRID_ROWS
            && #[trigger] m.instances[i].animators[c][r] is Some
}

/// What an input's result leaves to be drawn: every board after a clear or a change that
/// affects all boards, the active board after a change of its own, nothing otherwise.
pub open spec fn after_result(m: AppModel, r: InputResult) -> AppModel {
    match r {
        InputResult::Clear | InputResult::RedrawAll => AppModel { instances: all_dirty(m.instances), ..m },
        InputResult::Redraw => m.with_active(RuntimeModel { dirty: true, ..m.active_rt() }),
        _ => m,
    }
}

/// The animations of a board with the cells in `landed` cleared.
pub open spec fn cleared_cells(
    animators: Seq<Seq<Option<crate::game::Animation>>>,
    landed: Seq<(usize, usize)>,
) -> Seq<Seq<Option<crate::game::Animation>>>
    decreases landed.len(),
{
    if landed.len() == 0 {
        animators
    } else {
        let a = cleared_cells(animators, landed.drop_last());
        let (c, r) = landed.last();
        a.update(c as int, a[c as int].update(r as int, None))
    }
}

/// A board after an animation step: the disks that landed stop animating, and the board
/// is to be drawn when a disk moved or landed.
pub open spec fn after_step(rt: RuntimeModel, moved: bool, landed: Seq<(usize, usize)>) -> RuntimeModel {
    RuntimeModel {
        animators: cleared_cells(rt.animators, landed),
        dirty: rt.dirty || moved || landed.len() > 0,
        ..rt
    }
}

impl AppState {
    /// Whether a disk is falling on any board.
    pub fn animating(&self) -> (b: bool)
        ensures
            b == any_animating(self@),
    {
        let n = self.instances.len();
        let mut i: usize = 0;
        while i < n
            invariant
                n == self.instances@.len(),
                i <= n,
                forall|j: int, c: int, r: int|
                    0 <= j < i && 0 <= c < GRID_COLS && 0 <= r < GRID_ROWS ==> #[trigger] self@.instances[j].animators[c][r] is None,
            decreases n - i,
        {
            let mut c: usize = 0;
            while c < GRID_COLS
                invariant
                    n == self.instances@.len(),
                    i < n,
                    c <= GRID_COLS,
                    forall|j: int, cc: int, r: int|
                        0 <= j < i && 0 <= cc < GRID_COLS && 0 <= r < GRID_ROWS ==> #[trigger] self@.instances[j].animators[cc][r] is None,
                    forall|cc: int, r: int|
                        0 <= cc < c && 0 <= r < GRID_ROWS ==> #[trigger] self@.instances[i as int].animators[cc][r] is None,
                decreases GRID_COLS - c,
            {
                let mut r: usize = 0;
                while r < GRID_ROWS
                    invariant
                        n == self.instances@.len(),
                        i < n,
                        c < GRID_COLS,
                        r <= GRID_ROWS,
                        forall|j: int, cc: int, rr: int|
                            0 <= j < i && 0 <= cc < GRID_COLS && 0 <= rr < GRID_ROWS ==> #[trigger] self@.instances[j].animators[cc][rr] is None,
                        forall|cc: int, rr: int|
                            0 <= cc < c && 0 <= rr < GRID_ROWS ==> #[trigger] self@.instances[i as int].animators[cc][rr] is None,
                        forall|rr: int| 0 <= rr < r ==> #[trigger] self@.instances[i as int].animators[c as int][rr] is None,
                    decreases GRID_ROWS - r,
                {
                    proof {
                        assert(self@.instances[i as int] == self.instances@[i as int]@);
                    }
                    if self.instances[i].animators[c][r].is_some() {
                        proof {
                            assert(self@.instances[i as int].animators[c as int][r as int] is Some);
                        }
                        return true;
                    }
                    r += 1;
                }
                c += 1;
            }
            i += 1;
        }
        false
    }

    /// Marks what an input's result leaves to be drawn (see `after_result`); says whether
    /// a frame is owed: when one already was, or the input changed something.
    pub fn apply_result(&mut self, r: InputResult, owed: bool, ctx: &Context) -> (now: bool)
        requires
            old(self).wf(&ctx.strings),
        ensures
            final(self).wf(&ctx.strings),
            final(self)@ == after_result(old(self)@, r),
            now == (owed || r == InputResult::Clear || r == InputResult::RedrawAll || r == InputResult::Redraw),
    {
        let ghost m = self@;
        match r {
            InputResult::Clear | InputResult::RedrawAll => {
                let n = self.instances.len();
                let mut i: usize = 0;
                while i < n
                    invariant
                        n == self.instances@.len(),
                        n == m.instances.len(),
                        i <= n,
                        self.active == m.active,
                        self.confirm_remove == m.confirm_remove,
                        forall|j: int| 0 <= j < i ==> #[trigger] self@.instances[j] == (RuntimeModel { dirty: true, ..m.instances[j] }),
                        forall|j: int| i <= j < n ==> #[trigger] self@.instances[j] == m.instances[j],
                        forall|j: int| 0 <= j < n ==> #[trigger] self.instances@[j].wf(&ctx.strings),
                        crate::app::all_on_screen(self@.instances),
                    decreases n - i,
                {
                    let ghost before = self.instances@;
                    let ghost vb = self@.instances;
                    proof {
                        assert(before[i as int].wf(&ctx.strings));
                        assert(vb[i as int] == before[i as int]@);
                    }
                    self.instances[i].dirty = true;
                    proof {
                        assert(self@.instances =~= vb.update(i as int, RuntimeModel { dirty: true, ..vb[i as int] }));
                        assert forall|j: int| 0 <= j < n && j != i implies #[trigger] self.instances@[j] == before[j] by {}
                        assert forall|j: int| 0 <= j < n && j != i implies #[trigger] self@.instances[j] == before[j]@ by {
                            assert(self.instances@[j] == before[j]);
                        }
                        assert(self.instances@[i as int]@ =~= (RuntimeModel { dirty: true, ..before[i as int]@ }));
                        assert(self.instances@[i as int].wf(&ctx.strings));
                    }
                    i += 1;
                }
                proof {
                    assert(self@.instances =~= all_dirty(m.instances));
                }
                true
            },
            InputResult::Redraw => {
                let a = self.active;
                let ghost before = self.instances@;
                proof {
                    assert(before[a as int].wf(&ctx.strings));
                }
                self.instances[a].dirty = true;
                proof {
                    assert forall|j: int| 0 <= j < self.instances@.len() && j != a implies #[trigger] self.instances@[j] == before[j] by {}
                    assert(self.instances@[a as int]@ =~= (RuntimeModel { dirty: true, ..before[a as int]@ }));
                    assert(self.instances@[a as int].wf(&ctx.strings));
                    assert(self@.instances =~= m.instances.update(a as int, RuntimeModel { dirty: true, ..m.active_rt() }));
                    assert(self@ =~= after_result(m, r));
                }
                true
            },
            _ => owed,
        }
    }

    /// Records an animation step of board `i`: the disks in `landed` have come to rest and
    /// stop animating; the board is to be drawn when a disk `moved` or landed (see
    /// `after_step`). Says whether a frame is owed.
    pub fn after_tick(&mut self, i: usize, moved: bool, landed: &Vec<(usize, usize)>, owed: bool, ctx: &Context) -> (now: bool)
        requires
            old(self).wf(&ctx.strings),
            i < old(self).instances@.len(),
            forall|k: int| 0 <= k < landed@.len() ==> #[trigger] landed@[k].0 < GRID_COLS && landed@[k].1 < GRID_ROWS,
        ensures
            final(self).wf(&ctx.strings),
            final(self)@ == (AppModel {
                instances: old(self)@.instances.update(i as int, after_step(old(self)@.instances[i as int], moved, landed@)),
                ..old(self)@
            }),
            now == (owed || moved || landed@.len() > 0),
    {
        let ghost m = self@;
        let ghost rt0 = m.instances[i as int];
        let n = landed.len();
        let mut k: usize = 0;
        proof {
            assert(landed@.take(0) =~= Seq::<(usize, usize)>::empty());
            assert(self@.instances[i as int] =~= (RuntimeModel { animators: cleared_cells(rt0.animators, landed@.take(0)), ..rt0 }));
        }
        while k < n
            invariant
                n == landed@.len(),
                k <= n,
                i < self.instances@.len(),
                self.active == m.active,
                self.confirm_remove == m.confirm_remove,
                self.instances@.len() == m.instances.len(),
                forall|k2: int| 0 <= k2 < landed@.len() ==> #[trigger] landed@[k2].0 < GRID_COLS && landed@[k2].1 < GRID_ROWS,
                forall|j: int| 0 <= j < self.instances@.len() && j != i ==> #[trigger] self.instances@[j] == old(self).instances@[j],
                self@.instances[i as int] == (RuntimeModel { animators: cleared_cells(rt0.animators, landed@.take(k as int)), ..rt0 }),
                rt0 == m.instances[i as int],
                m == old(self)@,
                forall|j: int| 0 <= j < self.instances@.len() ==> #[trigger] self.instances@[j].wf(&ctx.strings),
                crate::app::all_on_screen(self@.instances),
            decreases n - k,
        {
            let (c, r) = landed[k];
            let ghost before = self.instances@;
            let ghost vb = self@.instances;
            proof {
                assert(vb[i as int] == before[i as int]@);
                assert(before[i as int].wf(&ctx.strings));
                assert(landed@[k as int].0 < GRID_COLS && landed@[k as int].1 < GRID_ROWS);
            }
            self.instances[i].animators[c][r] = None;
            proof {
                let t = landed@.take(k + 1);
                assert(t.drop_last() =~= landed@.take(k as int));
                assert(t.last() == (c, r));
                assert forall|j: int| 0 <= j < self.instances@.len() && j != i implies #[trigger] self.instances@[j] == before[j] by {}
                let want = cleared_cells(rt0.animators, t);
                assert(self@.instances[i as int].animators =~~= want);
                assert(self.instances@[i as int]@ =~= (RuntimeModel { animators: want, ..rt0 }));
                assert(self@.instances =~= vb.update(i as int, RuntimeModel { animators: want, ..rt0 }));
                assert(crate::game::on_screen(vb[i as int].translate));
                assert forall|j: int| 0 <= j < self@.instances.len() implies crate::game::on_screen(
                    #[trigger] self@.instances[j].translate,
                ) by {
                    assert(crate::game::on_screen(vb[j].translate));
                }
                assert(self.instances@[i as int].wf(&ctx.strings));
            }
            k += 1;
        }
        proof {
            assert(landed@.take(n as int) =~= landed@);
        }
        let now = owed || moved || n > 0;
        if moved || n > 0 {
            let ghost before = self.instances@;
            proof {
                assert(before[i as int].wf(&ctx.strings));
            }
            self.instances[i].dirty = true;
            proof {
                assert forall|j: int| 0 <= j < self.instances@.len() && j != i implies #[trigger] self.instances@[j] == before[j] by {}
                assert(self.instances@[i as int]@ =~= (RuntimeModel { dirty: true, ..before[i as int]@ }));
                assert(self.instances@[i as int].wf(&ctx.strings));
            }
        }
        proof {
            assert(self@.instances =~= m.instances.update(i as int, after_step(rt0, moved, landed@)));
        }
        now
    }
}

} // verus!
