//! How a session starts, and how lines are tinted.
use crate::comments::model::{CommentV, ThreadV};
use crate::diff::model::{DiffFileV, LineKind};
use crate::ui::app::move_laws;
use crate::ui::app::paint;
use crate::ui::app::start;
use crate::ui::app::state::{AppV, Focus, PredV, ViewMode};
use vstd::prelude::*;

verus! {

/// A session starts side by side, with soft-wrap on and the file list shown and active, at the
/// first row of the first file that the cursor can stand on, with nothing selected, written or
/// folded.
pub proof fn law_sessions_start_at_the_first_file(
    files: Seq<DiffFileV>,
    t: Seq<ThreadV>,
    i: int,
)
    ensures
        ({
            let a = start::initial(files, t);
            &&& a.files == files && a.threads == t
            &&& a.view == ViewMode::Split && a.wrap && a.show_sidebar && a.focus == Focus::Sidebar
            &&& !a.quit && !a.visual && a.composer is None && a.sel_anchor is None
            &&& a.collapsed.len() == 0 && a.pending_copy is None
            &&& a.current_file == 0
            &&& move_laws::landing(a, i) && move_laws::in_file(a, i) ==> move_laws::landing(
                a,
                a.selected as int,
            ) && move_laws::in_file(a, a.selected as int) && a.selected <= i
        }),
{
    reveal(AppV::resynced);
    reveal(AppV::at_first);
    reveal(AppV::first_stop);
    reveal(AppV::with_span);
    let b = start::blank_state(files, t).resynced();
    let a = start::initial(files, t);
    let (s, e) = b.file_span;
    move_laws::lemma_first(b, PredV::Stop, s, e);
    if move_laws::landing(a, i) && move_laws::in_file(a, i) {
        assert(move_laws::landing(b, i) == move_laws::landing(a, i));
        move_laws::lemma_holds(b, i as nat);
        assert(b.holds(PredV::Stop, i as nat));
        move_laws::lemma_holds(b, a.selected);
        assert(move_laws::landing(b, a.selected as int) == move_laws::landing(
            a,
            a.selected as int,
        ));
    }
}

proof fn lemma_ids_of_thread(cs: Seq<CommentV>, n: nat, id: Seq<char>)
    requires
        n <= cs.len(),
    ensures
        start::ids_among(cs, n).contains(id) <==> exists|k: int|
            0 <= k < n && (#[trigger] cs[k]).id == id,
    decreases n,
{
    if n > 0 {
        let p = (n - 1) as nat;
        lemma_ids_of_thread(cs, p, id);
        let before = start::ids_among(cs, p);
        let all = start::ids_among(cs, n);
        if before.contains(id) {
            let q = choose|q: int| 0 <= q < before.len() && before[q] == id;
            assert(all[q] == id);
        }
        assert(all[before.len() as int] == cs[n - 1].id);
        if all.contains(id) {
            let q = choose|q: int| 0 <= q < all.len() && all[q] == id;
            if q < before.len() {
                assert(before[q] == id);
            } else {
                assert(cs[n - 1].id == id);
            }
        }
        if exists|k: int| 0 <= k < n && (#[trigger] cs[k]).id == id {
            let k = choose|k: int| 0 <= k < n && (#[trigger] cs[k]).id == id;
            if k < p {
                assert(cs[k].id == id);
            }
        }
    }
}

proof fn lemma_all_ids(t: Seq<ThreadV>, n: nat, id: Seq<char>)
    requires
        n <= t.len(),
    ensures
        start::all_ids(t, n).contains(id) <==> exists|i: int, k: int|
            0 <= i < n && 0 <= k < t[i].comments.len() && (#[trigger] t[i].comments[k]).id == id,
    decreases n,
{
    if n > 0 {
        let p = (n - 1) as nat;
        lemma_all_ids(t, p, id);
        let cs = t[n - 1].comments;
        lemma_ids_of_thread(cs, cs.len(), id);
        let x = start::all_ids(t, p);
        let y = start::ids_among(cs, cs.len());
        let all = x + y;
        if x.contains(id) {
            let q = choose|q: int| 0 <= q < x.len() && x[q] == id;
            assert(all[q] == id);
            let (i, k) = choose|i: int, k: int|
                0 <= i < p && 0 <= k < t[i].comments.len() && (#[trigger] t[i].comments[k]).id
                    == id;
            assert(t[i].comments[k].id == id);
        }
        if y.contains(id) {
            let q = choose|q: int| 0 <= q < y.len() && y[q] == id;
            assert(all[x.len() + q] == id);
            let k = choose|k: int| 0 <= k < cs.len() && (#[trigger] cs[k]).id == id;
            assert(t[n - 1].comments[k].id == id);
        }
        if all.contains(id) {
            let q = choose|q: int| 0 <= q < all.len() && all[q] == id;
            if q < x.len() {
                assert(x[q] == id);
            } else {
                assert(y[q - x.len()] == id);
            }
        }
        if exists|i: int, k: int|
            0 <= i < n && 0 <= k < t[i].comments.len() && (#[trigger] t[i].comments[k]).id == id {
            let (i, k) = choose|i: int, k: int|
                0 <= i < n && 0 <= k < t[i].comments.len() && (#[trigger] t[i].comments[k]).id
                    == id;
            if i < p {
                assert(t[i].comments[k].id == id);
            } else {
                assert(cs[k].id == id);
            }
        }
    }
}

/// What came with the input is known by the ids of its comments: those of every comment of every
/// thread, and no others.
pub proof fn law_input_is_known_by_its_ids(files: Seq<DiffFileV>, t: Seq<ThreadV>, id: Seq<char>)
    ensures
        start::initial(files, t).base_ids.contains(id) <==> exists|i: int, k: int|
            0 <= i < t.len() && 0 <= k < t[i].comments.len() && (#[trigger] t[i].comments[k]).id
                == id,
{
    reveal(AppV::resynced);
    reveal(AppV::at_first);
    reveal(AppV::with_span);
    lemma_all_ids(t, t.len(), id);
}

/// Lines are told apart by their color: an added line is tinted as such, a deleted one as such,
/// an unchanged one not at all; and where it is selected, every line like the cursor,
/// which is brighter in the pane that keys act on.
pub proof fn law_lines_are_tinted_by_their_kind(a: AppV, kind: LineKind)
    ensures
        paint::tint(a, LineKind::Addition, false) == Some(a.theme.add_bg),
        paint::tint(a, LineKind::Deletion, false) == Some(a.theme.del_bg),
        paint::tint(a, LineKind::Context, false) is None,
        a.focus == Focus::Diff ==> paint::tint(a, kind, true) == Some(a.theme.cursor_bg),
        a.focus == Focus::Sidebar && a.show_sidebar && a.files.len() > 0 ==> paint::tint(
            a,
            kind,
            true,
        ) == Some(a.theme.unfocus_bg),
        paint::sign_color(a.theme, LineKind::Addition) == a.theme.added,
        paint::sign_color(a.theme, LineKind::Deletion) == a.theme.removed,
{
}

} // verus!
