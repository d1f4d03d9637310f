//! The collection of board instances and which one is active.
use vstd::prelude::*;

use crate::config::Context;
use crate::game::{board_translate, on_screen};
use crate::render::{
    all_wf, board_position, instances_view, layout_fits, relayout, update_all_translates,
};
use crate::runtime::{Runtime, RuntimeModel};
use crate::translate::Translate;
use crate::strings::Strings;

verus! {

/// Top-level state: the game instances and which one is active.
pub struct AppState {
    pub instances: Vec<Runtime>,
    pub active: usize,
    pub confirm_remove: bool,
}

/// The mathematical content of an `AppState`.
#[verifier::ext_equal]
pub struct AppModel {
    pub instances: Seq<RuntimeModel>,
    pub active: usize,
    pub confirm_remove: bool,
}

impl View for AppState {
    type V = AppModel;

    open spec fn view(&self) -> AppModel {
        AppModel {
            instances: instances_view(self.instances@),
            active: self.active,
            confirm_remove: self.confirm_remove,
        }
    }
}

/// Nine boards of a width that fits a `u16` always fit the layout arithmetic.
pub proof fn lemma_nine_boards_fit(board_width: u16, n: int)
    requires
        0 <= n <= 9,
    ensures
        layout_fits(n, board_width as int),
{
    assert(n * (board_width + 2) <= 9 * (65535 + 2)) by (nonlinear_arith)
        requires
            0 <= n <= 9,
            board_width <= 65535,
    ;
}

/// Every board's corner lies within the terminal's coordinate range.
pub open spec fn all_on_screen(instances: Seq<RuntimeModel>) -> bool {
    forall|i: int| 0 <= i < instances.len() ==> on_screen(#[trigger] instances[i].translate)
}

/// A board laid out in a row of at most nine lies within the terminal's coordinates.
pub proof fn lemma_position_on_screen(i: int, n: int, term_size: (u16, u16), board_width: u16, board_height: u16)
    requires
        0 <= i < n <= 9,
    ensures
        on_screen(board_position(i, n, term_size, board_width, board_height)),
{
    assert(i * (board_width + 2) <= 8 * (65535 + 2)) by (nonlinear_arith)
        requires
            0 <= i <= 8,
            board_width <= 65535,
    ;
    assert(0 <= i * (board_width + 2)) by (nonlinear_arith)
        requires
            0 <= i,
            board_width >= 0,
    ;
}

/// Laying out at most nine boards puts every one of them within the terminal's
/// coordinates.
pub proof fn lemma_relayout_on_screen(instances: Seq<RuntimeModel>, term_size: (u16, u16), board_width: u16, board_height: u16)
    requires
        instances.len() <= 9,
    ensures
        all_on_screen(relayout(instances, term_size, board_width, board_height)),
{
    let r = relayout(instances, term_size, board_width, board_height);
    assert forall|i: int| 0 <= i < r.len() implies on_screen(#[trigger] r[i].translate) by {
        lemma_position_on_screen(i, instances.len() as int, term_size, board_width, board_height);
    }
}

/// A single board placed for the terminal lies within its coordinates.
pub proof fn lemma_board_translate_on_screen(term_size: (u16, u16), board_width: u16, board_height: u16)
    ensures
        on_screen(board_translate(term_size, board_width, board_height)),
{
}

/// The boards the game starts with: `n` fresh games laid out in a row.
pub open spec fn starting_boards(n: nat, term_size: (u16, u16), board_width: u16, board_height: u16) -> Seq<RuntimeModel> {
    relayout(
        Seq::new(n, |i: int| RuntimeModel::fresh(board_translate(term_size, board_width, board_height))),
        term_size,
        board_width,
        board_height,
    )
}

/// A fresh game, wherever it is placed and whether or not it awaits drawing.
pub open spec fn is_fresh(r: RuntimeModel, t: Translate) -> bool {
    RuntimeModel { translate: t, dirty: true, ..r } == RuntimeModel::fresh(t)
}

/// Laying out fresh games, wherever they were, gives the starting boards.
proof fn lemma_relayout_fresh(s: Seq<RuntimeModel>, term_size: (u16, u16), board_width: u16, board_height: u16)
    requires
        forall|i: int| 0 <= i < s.len() ==> is_fresh(#[trigger] s[i], board_translate(term_size, board_width, board_height)),
    ensures
        relayout(s, term_size, board_width, board_height) == starting_boards(s.len(), term_size, board_width, board_height),
{
    let bt = board_translate(term_size, board_width, board_height);
    let a = relayout(s, term_size, board_width, board_height);
    let b = starting_boards(s.len(), term_size, board_width, board_height);
    assert forall|i: int| 0 <= i < s.len() implies a[i] == b[i] by {
        assert(is_fresh(s[i], bt));
        assert(RuntimeModel { translate: bt, dirty: true, ..s[i] }.grid == s[i].grid);
    }
    assert(a =~= b);
}

impl AppState {
    /// One to nine boards, a valid active one, every board valid and placed within the
    /// terminal's coordinates.
    pub open spec fn wf(&self, strings: &Strings) -> bool {
        &&& 1 <= self.instances@.len() <= 9
        &&& self.active < self.instances@.len()
        &&& all_wf(self.instances@, strings)
        &&& all_on_screen(self@.instances)
    }

    /// A single fresh board, laid out for the terminal.
    pub fn new(ctx: &Context, term_size: (u16, u16)) -> (app: Self)
        ensures
            app.wf(&ctx.strings),
            app@.instances == starting_boards(1, term_size, ctx.textures.board_width, ctx.textures.board_height),
            app@.active == 0,
            !app@.confirm_remove,
    {
        let mut app = Self { instances: vec![Runtime::new(ctx, term_size)], active: 0, confirm_remove: false };
        proof {
            lemma_nine_boards_fit(ctx.textures.board_width, 1);
        }
        let ghost before = instances_view(app.instances@);
        update_all_translates(&mut app.instances, term_size, &ctx.textures, &ctx.strings);
        proof {
            lemma_relayout_on_screen(before, term_size, ctx.textures.board_width, ctx.textures.board_height);
            lemma_relayout_fresh(before, term_size, ctx.textures.board_width, ctx.textures.board_height);
        }
        assert(app.instances@.len() == instances_view(app.instances@).len());
        app
    }

    /// `new`, with as many boards as the configuration asks for (one to nine).
    pub fn with_starting_instances(ctx: &Context, term_size: (u16, u16)) -> (app: Self)
        ensures
            app.wf(&ctx.strings),
            app@.instances == starting_boards(
                if ctx.config.starting_instances < 1 {
                    1
                } else if ctx.config.starting_instances > 9 {
                    9
                } else {
                    ctx.config.starting_instances as nat
                },
                term_size,
                ctx.textures.board_width,
                ctx.textures.board_height,
            ),
            app@.active == 0,
            !app@.confirm_remove,
    {
        let mut app = Self::new(ctx, term_size);
        let ghost bt = board_translate(term_size, ctx.textures.board_width, ctx.textures.board_height);
        proof {
            assert(app@.instances.len() == 1);
            assert(app.instances@.len() == instances_view(app.instances@).len());
            let r = app@.instances[0];
            assert(is_fresh(r, bt));
        }
        let wanted = if ctx.config.starting_instances > 9 {
            9
        } else {
            ctx.config.starting_instances
        };
        let mut k: usize = 1;
        while k < wanted
            invariant
                1 <= k,
                k <= 9,
                wanted <= 9,
                app.instances@.len() == k,
                k <= wanted || k == 1,
                app.active == 0,
                !app.confirm_remove,
                all_wf(app.instances@, &ctx.strings),
                all_on_screen(app@.instances),
                bt == board_translate(term_size, ctx.textures.board_width, ctx.textures.board_height),
                forall|i: int| 0 <= i < k ==> is_fresh(#[trigger] app@.instances[i], bt),
                wanted <= 1 ==> app@.instances == starting_boards(1, term_size, ctx.textures.board_width, ctx.textures.board_height),
            decreases wanted - k,
        {
            let ghost before = app@.instances;
            let rt = Runtime::new(ctx, term_size);
            app.instances.push(rt);
            proof {
                lemma_board_translate_on_screen(term_size, ctx.textures.board_width, ctx.textures.board_height);
                assert(app@.instances =~= before.push(rt@));
            }
            k += 1;
        }
        if wanted > 1 {
            proof {
                lemma_nine_boards_fit(ctx.textures.board_width, app.instances@.len() as int);
            }
            let ghost before = instances_view(app.instances@);
            update_all_translates(&mut app.instances, term_size, &ctx.textures, &ctx.strings);
            proof {
                lemma_relayout_on_screen(before, term_size, ctx.textures.board_width, ctx.textures.board_height);
                lemma_relayout_fresh(before, term_size, ctx.textures.board_width, ctx.textures.board_height);
            }
            assert(app.instances@.len() == instances_view(app.instances@).len());
        }
        app
    }

    /// The active board, for changing it in place.
    pub fn active_mut(&mut self) -> (r: &mut Runtime)
        requires
            old(self).active < old(self).instances@.len(),
        ensures
            *r == old(self).instances@[old(self).active as int],
            final(self).instances@ == old(self).instances@.update(old(self).active as int, *final(r)),
            final(self).active == old(self).active,
            final(self).confirm_remove == old(self).confirm_remove,
    {
        &mut self.instances[self.active]
    }
}

} // verus!
