//! What every operation of the application keeps.
use crate::comments::actions;
use crate::comments::model::{CommentV, LineRange, ThreadV};
use crate::comments::model;
use crate::diff::model::DiffFileV;
use crate::strs;
use crate::ui::app::comments::{Chord, Drawn};
use crate::ui::app::comments;
use crate::ui::app::editor::{Editor, KeyCode, Mods};
use crate::ui::app::input::{DiffAct, Mouse, MouseKind, Thumbs, TreeAct};
use crate::ui::app::input;
use crate::ui::app::nav;
use crate::ui::app::render::Places;
use crate::ui::app::start;
use crate::ui::app::state::{AppV, ButtonV, HitV, PredV, SelKeyV, TargetV};
use crate::ui::app::state;
use crate::ui::app::wrap;
use crate::ui::render_rows::box_laws;
use crate::ui::render_rows::text;
use crate::ui::sidebar;
use vstd::prelude::*;

verus! {

impl AppV {
    /// The row spans are those of the rows.
    pub open spec fn spans_ok(self) -> bool {
        self.file_spans == self.all_spans()
    }

    /// The file list is that of the files and of the directories that are collapsed.
    pub open spec fn tree_ok(self) -> bool {
        &&& self.sidebar_rows == sidebar::sidebar_view(self.files, self.collapsed)
        &&& self.file_to_sbrow == sidebar::row_map(self.sidebar_rows, self.files.len())
    }

    /// What is derived from other parts of the state agrees with them: the heights and their
    /// sums, the row spans of the files, that of the current file, and the file list.
    #[verifier::opaque]
    pub open spec fn wf(self) -> bool {
        &&& wrap::geom_ok(self.geom)
        &&& self.spans_ok()
        &&& self.file_span == self.current_span()
        &&& self.tree_ok()
    }
}

/// The rows of a view are those of the state, unless they are marked as stale; those of the
/// active view are not stale.
pub open spec fn rows_current(a: AppV) -> bool {
    &&& !a.unified_dirty ==> a.rows == a.fresh_rows()
    &&& !a.split_dirty ==> a.split_rows == a.fresh_split_rows()
    &&& !a.stale()
}

/// `b` is well formed where `a` is, has current rows where `a` has, and has the same files,
/// threads and base.
pub open spec fn kept(a: AppV, b: AppV) -> bool {
    &&& b.files == a.files
    &&& b.threads == a.threads
    &&& b.base_ids == a.base_ids
    &&& a.wf() ==> b.wf()
    &&& rows_current(a) ==> rows_current(b)
}

proof fn lemma_span_frame(a: AppV, b: AppV, f: nat, n: nat)
    requires
        a.view == b.view,
        a.rows == b.rows,
        a.split_rows == b.split_rows,
    ensures
        a.span_among(f, n) == b.span_among(f, n),
    decreases n,
{
    if n > 0 {
        lemma_span_frame(a, b, f, (n - 1) as nat);
    }
}

proof fn lemma_spans_frame(a: AppV, b: AppV)
    requires
        a.view == b.view,
        a.rows == b.rows,
        a.split_rows == b.split_rows,
        a.files == b.files,
    ensures
        a.all_spans() == b.all_spans(),
{
    assert forall|f: int| 0 <= f < a.files.len() implies #[trigger] a.all_spans()[f]
        == b.all_spans()[f] by {
        lemma_span_frame(a, b, f as nat, a.active_len());
    }
    assert(a.all_spans() =~= b.all_spans());
}

/// Nothing differs that is derived, that something is derived from, or that the session is
/// about.
spec fn same(a: AppV, b: AppV) -> bool {
    &&& b.files == a.files
    &&& b.threads == a.threads
    &&& b.base_ids == a.base_ids
    &&& b.view == a.view
    &&& b.rows == a.rows
    &&& b.split_rows == a.split_rows
    &&& b.file_spans == a.file_spans
    &&& b.current_file == a.current_file
    &&& b.file_span == a.file_span
    &&& b.composer == a.composer
    &&& b.comment_wrap == a.comment_wrap
    &&& b.unified_dirty == a.unified_dirty
    &&& b.split_dirty == a.split_dirty
    &&& b.geom.heights == a.geom.heights
    &&& b.geom.offsets == a.geom.offsets
    &&& b.collapsed == a.collapsed
    &&& b.sidebar_rows == a.sidebar_rows
    &&& b.file_to_sbrow == a.file_to_sbrow
}

proof fn lemma_same(a: AppV, b: AppV)
    requires
        same(a, b),
    ensures
        kept(a, b),
{
    reveal(AppV::wf);
    lemma_spans_frame(a, b);
}

proof fn lemma_visible(a: AppV)
    ensures
        kept(a, a.visible()),
        a.visible().composer == a.composer,
        a.visible().selected == a.selected,
{
    reveal(AppV::visible);
    lemma_same(a, a.visible());
}

proof fn lemma_with_span(a: AppV)
    ensures
        ({
            let b = a.with_span();
            &&& b.files == a.files && b.threads == a.threads && b.base_ids == a.base_ids
            &&& b.composer == a.composer && b.selected == a.selected
            &&& wrap::geom_ok(a.geom) && a.spans_ok() && a.tree_ok() ==> b.wf()
        }),
{
    reveal(AppV::wf);
    reveal(AppV::with_span);
    lemma_spans_frame(a, a.with_span());
}

proof fn lemma_resynced(a: AppV)
    ensures
        ({
            let b = a.resynced();
            &&& b.files == a.files && b.threads == a.threads && b.base_ids == a.base_ids
            &&& b.composer == a.composer
            &&& wrap::geom_ok(a.geom) && a.tree_ok() ==> b.wf()
        }),
{
    reveal(AppV::wf);
    reveal(AppV::resynced);
    let c = AppV { file_spans: a.all_spans(), ..a };
    lemma_spans_frame(a, c);
    lemma_with_span(c);
}

/// With another current file, looked up: as `with_file_of` and `with_span` together.
proof fn lemma_file_of(a: AppV, row: nat)
    ensures
        kept(a, a.with_file_of(row).with_span()),
        a.with_file_of(row).with_span().composer == a.composer,
{
    reveal(AppV::wf);
    reveal(AppV::with_file_of);
    reveal(AppV::with_span);
    let b = a.with_file_of(row);
    lemma_spans_frame(a, b);
    lemma_with_span(b);
}

proof fn lemma_view_built(a: AppV)
    ensures
        ({
            let b = a.view_built().other_stale();
            &&& b.files == a.files && b.threads == a.threads && b.base_ids == a.base_ids
            &&& b.composer == a.composer && b.geom == a.geom && b.view == a.view
            &&& a.tree_ok() ==> b.tree_ok()
        }),
        ({
            let b = a.view_ensured();
            &&& b.files == a.files && b.threads == a.threads && b.base_ids == a.base_ids
            &&& b.composer == a.composer && b.geom == a.geom && b.view == a.view
            &&& a.tree_ok() ==> b.tree_ok()
        }),
{
    reveal(AppV::view_built);
    reveal(AppV::other_stale);
    reveal(AppV::view_ensured);
}

proof fn lemma_cursor_on(a: AppV, k: Option<SelKeyV>)
    ensures
        kept(a, a.with_cursor_on(k)),
        a.with_cursor_on(k).composer == a.composer,
{
    reveal(AppV::with_cursor_on);
    lemma_same(a, a.with_cursor_on(k));
}

proof fn lemma_rows_rebuilt(a: AppV)
    ensures
        rows_current(a.rebuilt()),
        a.rebuilt().status == a.status,
        a.rebuilt().composer == a.composer,
{
    reveal(AppV::rebuilt);
    reveal(AppV::view_built);
    reveal(AppV::other_stale);
    reveal(AppV::resynced);
    reveal(AppV::with_span);
    reveal(AppV::with_cursor_on);
    reveal(AppV::with_file_of);
    reveal(AppV::visible);
}

pub(crate) proof fn lemma_rebuilt(a: AppV)
    ensures
        a.rebuilt().files == a.files,
        a.rebuilt().threads == a.threads,
        a.rebuilt().base_ids == a.base_ids,
        a.rebuilt().composer == a.composer,
        rows_current(a.rebuilt()),
        wrap::geom_ok(a.geom) && a.tree_ok() ==> a.rebuilt().wf(),
        a.wf() ==> a.rebuilt().wf(),
{
    lemma_rows_rebuilt(a);
    reveal(AppV::wf);
    reveal(AppV::rebuilt);
    lemma_view_built(a);
    let b = a.view_built().other_stale();
    lemma_resynced(b);
    let c = b.resynced();
    lemma_cursor_on(c, a.sel_key());
    let d = c.with_cursor_on(a.sel_key());
    lemma_file_of(d, d.selected);
    lemma_visible(d.with_file_of(d.selected).with_span());
}

pub(crate) proof fn lemma_composer_shown(a: AppV)
    ensures
        kept(a, a.composer_shown()),
        a.composer_shown().composer == a.composer,
{
    reveal(AppV::composer_shown);
    lemma_same(a, a.composer_shown());
}

pub(crate) proof fn lemma_redrawn(a: AppV)
    ensures
        a.redrawn().files == a.files,
        a.redrawn().threads == a.threads,
        a.redrawn().base_ids == a.base_ids,
        a.redrawn().composer == a.composer,
        rows_current(a.redrawn()),
        wrap::geom_ok(a.geom) && a.tree_ok() ==> a.redrawn().wf(),
        a.wf() ==> a.redrawn().wf(),
{
    reveal(AppV::wf);
    reveal(AppV::redrawn);
    lemma_rebuilt(a);
    lemma_composer_shown(a.rebuilt());
}

proof fn lemma_rows_toggled(a: AppV)
    requires
        rows_current(a),
    ensures
        rows_current(a.view_toggled()),
{
    reveal(AppV::view_toggled);
    reveal(AppV::with_other_view);
    reveal(AppV::view_ensured);
    reveal(AppV::view_built);
    reveal(AppV::resynced);
    reveal(AppV::with_span);
    reveal(AppV::with_cursor_on);
    reveal(AppV::with_anchor_on);
    reveal(AppV::with_file_of);
    reveal(AppV::recentered);
    reveal(AppV::visible);
}

proof fn lemma_view_toggled(a: AppV)
    ensures
        kept(a, a.view_toggled()),
{
    if rows_current(a) {
        lemma_rows_toggled(a);
    }
    reveal(AppV::wf);
    reveal(AppV::view_toggled);
    reveal(AppV::with_other_view);
    reveal(AppV::with_anchor_on);
    reveal(AppV::recentered);
    let b = a.with_other_view();
    lemma_view_built(b);
    lemma_resynced(b.view_ensured());
    let c = b.view_ensured().resynced();
    lemma_cursor_on(c, a.sel_key());
    let d = c.with_cursor_on(a.sel_key());
    let e = d.with_anchor_on(a.anchor_key());
    lemma_spans_frame(d, e);
    lemma_file_of(e, e.selected);
    let f = e.with_file_of(e.selected).with_span();
    lemma_spans_frame(f, f.recentered());
    lemma_visible(f.recentered());
}

proof fn lemma_unanchored(a: AppV)
    ensures
        kept(a, a.unanchored()),
{
    reveal(AppV::unanchored);
    lemma_same(a, a.unanchored());
}

proof fn lemma_selected(a: AppV, i: nat)
    ensures
        kept(a, AppV { selected: i, ..a }),
{
    lemma_same(a, AppV { selected: i, ..a });
}

proof fn lemma_moved(a: AppV, down: bool)
    ensures
        kept(a, a.moved(down)),
{
    reveal(AppV::moved);
    lemma_unanchored(a);
    let b = a.unanchored();
    if let Some(i) = b.seek(PredV::Stop, b.beside(down), down) {
        lemma_selected(b, i);
        lemma_visible(AppV { selected: i, ..b });
    }
}

proof fn lemma_moved_by(a: AppV, down: bool, n: nat)
    ensures
        kept(a, a.moved_by(down, n)),
    decreases n,
{
    if n > 0 {
        lemma_moved(a, down);
        lemma_moved_by(a.moved(down), down, (n - 1) as nat);
    }
}

proof fn lemma_diff_moves(a: AppV, down: bool)
    ensures
        kept(a, a.extended(down)),
        kept(a, a.scrolled(input::unit(down))),
        kept(a, a.scrolled(input::unit(down)).cursor_kept()),
        kept(a, a.at_edge(down)),
        kept(a, a.at_next_comment(down)),
{
    reveal(AppV::extended);
    reveal(AppV::at_edge);
    reveal(AppV::at_next_comment);
    reveal(AppV::cursor_kept);
    if let Some(i) = a.seek(PredV::Selectable, a.beside(down), down) {
        let b = AppV {
            sel_anchor: Some(nav::or_value(a.sel_anchor, a.selected)),
            selected: i,
            status: "shift+↑/↓ to extend · i to comment · move to clear"@,
            ..a
        };
        lemma_same(a, b);
        lemma_visible(b);
    }
    lemma_scrolled(a, input::unit(down));
    let s = a.scrolled(input::unit(down));
    assert(kept(s, s.cursor_kept())) by {
        reveal(AppV::unanchored);
        lemma_same(s, s.cursor_kept());
    }
    lemma_unanchored(a);
    let u = a.unanchored();
    let to = if down {
        u.last_stop()
    } else {
        u.first_stop()
    };
    lemma_selected(u, nav::or_value(to, 0));
    lemma_visible(AppV { selected: nav::or_value(to, 0), ..u });
    match a.next_head(down) {
        Some(i) => {
            let b = AppV { sel_anchor: None, selected: i, ..a };
            lemma_same(a, b);
            lemma_visible(b);
        },
        None => {
            lemma_same(a, a.at_next_comment(down));
        },
    }
}

proof fn lemma_scrolled(a: AppV, delta: int)
    ensures
        kept(a, a.scrolled(delta)),
{
    reveal(AppV::scrolled);
    lemma_same(a, a.scrolled(delta));
}

proof fn lemma_sidebar_revealed(a: AppV)
    ensures
        kept(a, a.sidebar_revealed()),
        a.sidebar_revealed().composer == a.composer,
{
    reveal(AppV::sidebar_revealed);
    lemma_same(a, a.sidebar_revealed());
}

proof fn lemma_sidebar_rebuilt(a: AppV)
    ensures
        ({
            let b = a.sidebar_rebuilt();
            &&& b.files == a.files && b.threads == a.threads && b.base_ids == a.base_ids
            &&& wrap::geom_ok(a.geom) && a.spans_ok() && a.file_span == a.current_span() ==> b.wf()
        }),
{
    reveal(AppV::wf);
    reveal(AppV::sidebar_rebuilt);
    lemma_spans_frame(a, a.sidebar_rebuilt());
}

proof fn lemma_file_revealed(a: AppV, fi: nat)
    ensures
        kept(a, a.file_revealed(fi)),
{
    reveal(AppV::wf);
    reveal(AppV::file_revealed);
    reveal(AppV::sidebar_rebuilt);
    if fi < a.files.len() {
        let segs = sidebar::segments(a.files[fi as int].display_path());
        let b = AppV {
            collapsed: crate::ui::app::tree::opened(a.collapsed, segs, segs.len()),
            ..a
        };
        lemma_spans_frame(a, b);
        lemma_sidebar_rebuilt(b);
    }
}

proof fn lemma_on_file(a: AppV, file: nat)
    ensures
        kept(a, a.on_file(file)),
{
    reveal(AppV::wf);
    reveal(AppV::on_file);
    reveal(AppV::pointed_at);
    reveal(AppV::with_file);
    reveal(AppV::with_sidebar_cursor);
    reveal(AppV::at_top);
    reveal(AppV::with_span);
    let b = a.with_file(file);
    lemma_spans_frame(a, b);
    lemma_with_span(b);
    let c = b.with_span();
    lemma_file_revealed(c, c.current_file);
    let d = c.file_revealed(c.current_file);
    lemma_spans_frame(d, d.with_sidebar_cursor());
    lemma_sidebar_revealed(d.with_sidebar_cursor());
    let e = d.with_sidebar_cursor().sidebar_revealed();
    let start = e.file_span.0;
    let f = AppV { scroll: start, selected: nav::or_value(e.first_stop(), start), ..e };
    lemma_spans_frame(e, f);
    lemma_visible(f);
}

proof fn lemma_on_next_file(a: AppV, dir: int)
    ensures
        kept(a, a.on_next_file(dir)),
{
    reveal(AppV::on_next_file);
    if a.files.len() > 0 {
        lemma_on_file(a, nav::clamped(a.current_file + dir, 0, (a.files.len() - 1) as nat));
    }
}

proof fn lemma_folded(a: AppV, path: Seq<char>, collapse: bool)
    ensures
        kept(a, a.folded(path, collapse)),
{
    reveal(AppV::wf);
    reveal(AppV::folded);
    reveal(AppV::with_dir);
    reveal(AppV::on_dir);
    reveal(AppV::sidebar_rebuilt);
    let b = a.with_dir(path, collapse);
    lemma_spans_frame(a, b);
    lemma_sidebar_rebuilt(b);
    let c = b.sidebar_rebuilt();
    lemma_spans_frame(c, c.on_dir(path));
    lemma_sidebar_revealed(c.on_dir(path));
}

proof fn lemma_activated(a: AppV)
    ensures
        kept(a, a.activated()),
{
    reveal(AppV::activated);
    lemma_sidebar_revealed(a);
    if a.sidebar_sel < a.sidebar_rows.len() {
        if let sidebar::SbRowV::File { idx, .. } = a.sidebar_rows[a.sidebar_sel as int] {
            lemma_on_file(a, idx);
            lemma_sidebar_revealed(a.on_file(idx));
        }
    }
}

proof fn lemma_folded_here(a: AppV, collapse: bool)
    ensures
        kept(a, a.folded_here(collapse)),
        kept(a, a.fold_toggled_here()),
{
    reveal(AppV::folded_here);
    reveal(AppV::fold_toggled_here);
    if a.sidebar_sel < a.sidebar_rows.len() {
        match a.sidebar_rows[a.sidebar_sel as int] {
            sidebar::SbRowV::Dir { path, .. } => {
                lemma_folded(a, sidebar::dir_part(path), true);
                lemma_folded(a, path, collapse);
                lemma_folded(a, path, !a.collapsed.contains(path));
            },
            sidebar::SbRowV::File { idx, .. } => {
                if let Some(d) = a.dir_of_file(idx) {
                    lemma_folded(a, d, true);
                }
            },
        }
    }
}

proof fn lemma_sidebar_sel(a: AppV, i: nat)
    ensures
        kept(a, AppV { sidebar_sel: i, ..a }.activated()),
{
    lemma_same(a, AppV { sidebar_sel: i, ..a });
    lemma_activated(AppV { sidebar_sel: i, ..a });
}

proof fn lemma_focus(a: AppV)
    ensures
        kept(a, a.on_diff()),
        kept(a, a.on_tree()),
        kept(a, a.left()),
        kept(a, a.visual_toggled()),
        kept(a, a.sidebar_toggled()),
        kept(a, a.released()),
        kept(a, a.grabbed()),
        kept(a, a.copied()),
{
    assert(kept(a, a.on_diff())) by {
        reveal(AppV::on_diff);
        lemma_same(a, a.on_diff());
    }
    assert(kept(a, a.on_tree())) by {
        reveal(AppV::on_tree);
        lemma_same(a, a.on_tree());
    }
    assert(kept(a, a.visual_toggled())) by {
        reveal(AppV::visual_toggled);
        lemma_same(a, a.visual_toggled());
    }
    assert(kept(a, a.sidebar_toggled())) by {
        reveal(AppV::sidebar_toggled);
        lemma_same(a, a.sidebar_toggled());
    }
    assert(kept(a, a.released())) by {
        reveal(AppV::released);
        lemma_same(a, a.released());
    }
    assert(kept(a, a.grabbed())) by {
        reveal(AppV::grabbed);
        lemma_same(a, a.grabbed());
    }
    assert(kept(a, a.copied())) by {
        reveal(AppV::copied);
        lemma_same(a, a.copied());
    }
    assert(kept(a, a.left())) by {
        reveal(AppV::left);
        reveal(AppV::on_tree);
        lemma_same(a, a.left());
    }
}

proof fn lemma_wrap_toggled(a: AppV)
    ensures
        kept(a, a.wrap_toggled()),
{
    reveal(AppV::wf);
    reveal(AppV::wrap_toggled);
    let b = AppV {
        wrap: !a.wrap,
        geom: state::GeomV {
            heights: Seq::empty(),
            offsets: Seq::empty(),
            width: a.geom.width,
            dirty: true,
        },
        status: if a.wrap {
            "wrap off"@
        } else {
            "wrap on"@
        },
        ..a
    };
    lemma_spans_frame(a, b);
    lemma_visible(b);
}

proof fn lemma_tree_key(a: AppV, code: KeyCode)
    ensures
        kept(a, a.tree_key(code)),
{
    reveal(AppV::tree_key);
    reveal(AppV::sidebar_moved);
    reveal(AppV::sidebar_at_edge);
    lemma_focus(a);
    match input::tree_act(code) {
        TreeAct::Move(down) => {
            lemma_sidebar_sel(
                a,
                if down {
                    a.sidebar_sel + 1
                } else {
                    (a.sidebar_sel - 1) as nat
                },
            );
        },
        TreeAct::Edge(last) => {
            lemma_sidebar_sel(
                a,
                if last {
                    (a.sidebar_rows.len() - 1) as nat
                } else {
                    0
                },
            );
        },
        TreeAct::Close => lemma_folded_here(a, true),
        TreeAct::File(next) => lemma_on_next_file(a, input::unit(next)),
        _ => lemma_folded_here(a, false),
    }
}

proof fn lemma_status(a: AppV, status: Seq<char>)
    ensures
        kept(a, AppV { status, ..a }),
{
    lemma_same(a, AppV { status, ..a });
}

proof fn lemma_composers(a: AppV, target: TargetV, status: Seq<char>)
    ensures
        kept(a, a.with_composer(target, status).rebuilt().composer_shown()),
{
    reveal(AppV::wf);
    reveal(AppV::with_composer);
    let b = a.with_composer(target, status);
    lemma_rebuilt(b);
    lemma_composer_shown(b.rebuilt());
}

proof fn lemma_opened(a: AppV)
    ensures
        kept(a, a.new_thread_opened()),
        kept(a, a.reply_opened()),
{
    reveal(AppV::new_thread_opened);
    reveal(AppV::reply_opened);
    match a.selection_range() {
        Some((file_idx, side, start, end)) => {
            lemma_composers(
                a,
                TargetV::NewThread { file_idx, side, start, end },
                "new comment — enter for newline, ctrl+s to submit, esc to cancel"@,
            );
        },
        None => lemma_status(a, "put the cursor on a diff line first"@),
    }
    match a.focused_thread() {
        Some(t) => lemma_reply_opened(a, t),
        None => lemma_status(a, "no comment thread here"@),
    }
}

proof fn lemma_reply_opened(a: AppV, t: Seq<char>)
    ensures
        kept(a, a.reply_opened_to(t)),
{
    reveal(AppV::reply_opened_to);
    lemma_composers(
        a,
        TargetV::Reply { thread_id: t },
        "reply — enter for newline, ctrl+s to submit, esc to cancel"@,
    );
}

proof fn lemma_cancelled(a: AppV)
    ensures
        kept(a, a.cancelled().rebuilt()),
        kept(a, a.cancelled().redrawn()),
{
    reveal(AppV::wf);
    reveal(AppV::cancelled);
    lemma_rebuilt(a.cancelled());
    lemma_redrawn(a.cancelled());
}

proof fn lemma_with_buffer(a: AppV, e: Editor)
    ensures
        kept(a, a.with_buffer(e).redrawn()),
        kept(a, a.with_buffer(e).rebuilt().composer_shown()),
{
    reveal(AppV::wf);
    reveal(AppV::with_buffer);
    let b = a.with_buffer(e);
    lemma_spans_frame(a, b);
    lemma_redrawn(b);
    lemma_rebuilt(b);
    lemma_composer_shown(b.rebuilt());
}

proof fn lemma_on_thread(a: AppV, t: Seq<char>)
    ensures
        kept(a, a.on_thread(t)),
{
    reveal(AppV::on_thread);
    reveal(AppV::with_stop_for);
    if let Some(row) = a.first(PredV::Thread(t), 0, a.active_len()) {
        lemma_file_of(a, row);
        let b = a.with_file_of(row).with_span();
        lemma_same(b, b.with_stop_for(row));
    }
}

// ---- what a session makes of the threads ----

/// `cur` is the store of a session that started from `base`, and the base's comments are
/// protected.
pub open spec fn reviewing(base: Seq<ThreadV>, a: AppV) -> bool {
    &&& actions::session(base, a.threads)
    &&& a.base_ids == start::all_ids(base, base.len())
    &&& forall|i: int| 0 <= i < base.len() ==> (#[trigger] base[i]).comments.len() > 0
}

/// No thread and no comment has the drawn ids.
pub open spec fn fresh(a: AppV, d: Drawn) -> bool {
    &&& actions::fresh_thread(a.threads, d.thread_id)
    &&& forall|i: int|
        0 <= i < a.threads.len() ==> model::find_comment(
            (#[trigger] a.threads[i]).comments,
            d.comment_id,
        ) is None
}

/// `b` is well formed where `a` is, has the same files, and goes on with its session.
pub open spec fn goes_on(a: AppV, b: AppV, base: Seq<ThreadV>) -> bool {
    &&& b.files == a.files
    &&& a.wf() ==> b.wf()
    &&& reviewing(base, a) ==> reviewing(base, b)
}

proof fn lemma_ids_among(comments: Seq<CommentV>, n: nat, j: int)
    requires
        0 <= j < n <= comments.len(),
    ensures
        start::ids_among(comments, n).contains(comments[j].id),
    decreases n,
{
    let ids = start::ids_among(comments, n);
    if j == n - 1 {
        assert(ids[ids.len() - 1] == comments[j].id);
    } else {
        lemma_ids_among(comments, (n - 1) as nat, j);
        let before = start::ids_among(comments, (n - 1) as nat);
        let k = choose|k: int| 0 <= k < before.len() && before[k] == comments[j].id;
        assert(ids[k] == comments[j].id);
    }
}

proof fn lemma_all_ids(threads: Seq<ThreadV>, n: nat, i: int, j: int)
    requires
        0 <= i < n <= threads.len(),
        0 <= j < threads[i].comments.len(),
    ensures
        start::all_ids(threads, n).contains(threads[i].comments[j].id),
    decreases n,
{
    let t = threads[n - 1];
    let before = start::all_ids(threads, (n - 1) as nat);
    let own = start::ids_among(t.comments, t.comments.len());
    let id = threads[i].comments[j].id;
    let all = start::all_ids(threads, n);
    if i == n - 1 {
        lemma_ids_among(t.comments, t.comments.len(), j);
        let k = choose|k: int| 0 <= k < own.len() && own[k] == id;
        assert(all[before.len() + k] == id);
    } else {
        lemma_all_ids(threads, (n - 1) as nat, i, j);
        let k = choose|k: int| 0 <= k < before.len() && before[k] == id;
        assert(all[k] == id);
    }
}

/// The composer holds nothing that could be submitted.
pub open spec fn discards(a: AppV) -> bool {
    a.composer matches Some(c) && {
        ||| strs::trimmed(strs::joined(c.text.lines, '\n')).len() == 0
        ||| c.target matches TargetV::NewThread { file_idx, .. } && file_idx >= a.files.len()
    }
}

proof fn lemma_submitted(a: AppV, d: Drawn, base: Seq<ThreadV>)
    requires
        fresh(a, d),
    ensures
        goes_on(a, a.submitted(d), base),
        rows_current(a) && !discards(a) ==> rows_current(a.submitted(d)),
{
    reveal(AppV::wf);
    reveal(AppV::submitted);
    reveal(AppV::closed);
    reveal(AppV::thread_added);
    reveal(AppV::reply_added);
    if let Some(c) = a.composer {
        let body = strs::trimmed(strs::joined(c.text.lines, '\n'));
        let b = a.closed();
        lemma_spans_frame(a, b);
        if body.len() == 0 {
            lemma_spans_frame(a, a.submitted(d));
        } else {
            match c.target {
                TargetV::NewThread { file_idx, side, start, end } => {
                    let e = b.thread_added(file_idx, side, LineRange { start, end }, body, d);
                    if file_idx < a.files.len() {
                        lemma_rebuilt(e);
                        if reviewing(base, a) {
                            actions::law_add_thread_keeps_session(
                                base,
                                a.threads,
                                e.threads[a.threads.len() as int],
                            );
                        }
                    } else {
                        lemma_spans_frame(a, e);
                    }
                },
                TargetV::Reply { thread_id } => {
                    let e = b.reply_added(thread_id, body, d);
                    lemma_rebuilt(e);
                    if let Some(i) = model::find(a.threads, thread_id) {
                        model::lemma_find(a.threads, thread_id, a.threads.len());
                        if reviewing(base, a) {
                            actions::law_reply_keeps_session(
                                base,
                                a.threads,
                                thread_id,
                                model::new_comment(
                                    d.comment_id,
                                    Some("you"@),
                                    body,
                                    d.created_at,
                                ),
                            );
                        }
                    }
                },
            }
        }
    }
}

proof fn lemma_resolve(a: AppV, id: Seq<char>, base: Seq<ThreadV>)
    ensures
        goes_on(a, a.resolve_toggled(id), base),
        rows_current(a) ==> rows_current(a.resolve_toggled(id)),
{
    reveal(AppV::wf);
    reveal(AppV::resolve_toggled);
    if let Some(i) = model::find(a.threads, id) {
        let b = AppV {
            threads: a.threads.update(
                i,
                model::with_resolved(a.threads[i], !a.threads[i].resolved),
            ),
            status: if a.threads[i].resolved {
                "unresolved thread"@
            } else {
                "resolved thread"@
            },
            ..a
        };
        lemma_rebuilt(b);
        if reviewing(base, a) {
            actions::law_toggle_keeps_session(base, a.threads, id);
        }
    }
}

proof fn lemma_delete(a: AppV, t: Seq<char>, c: Seq<char>, base: Seq<ThreadV>)
    ensures
        goes_on(a, a.comment_deleted(t, c), base),
        rows_current(a) ==> rows_current(a.comment_deleted(t, c)),
{
    reveal(AppV::wf);
    reveal(AppV::comment_deleted);
    if a.base_ids.contains(c) {
        lemma_spans_frame(a, a.comment_deleted(t, c));
    } else if let Some(i) = model::find(a.threads, t) {
        if let Some(j) = model::find_comment(a.threads[i].comments, c) {
            let b = AppV {
                threads: model::comment_removed(a.threads, i, j),
                status: "deleted comment"@,
                ..a
            };
            lemma_rebuilt(b);
            if reviewing(base, a) {
                model::lemma_find(a.threads, t, a.threads.len());
                if i < base.len() {
                    model::lemma_find_comment(base[i].comments, c, base[i].comments.len());
                    if let Some(k) = model::find_comment(base[i].comments, c) {
                        lemma_all_ids(base, base.len(), i, k);
                    }
                }
                actions::law_delete_keeps_session(base, a.threads, t, c);
            }
        }
    }
}

proof fn lemma_compose_key(a: AppV, code: KeyCode, mods: Mods, d: Drawn, base: Seq<ThreadV>)
    requires
        fresh(a, d),
    ensures
        goes_on(a, a.compose_key(code, mods, d), base),
        rows_current(a) ==> rows_current(a.compose_key(code, mods, d)),
{
    reveal(AppV::compose_key);
    match comments::chord(code, mods) {
        Chord::Cancel => lemma_cancelled(a),
        Chord::Submit => {
            lemma_submitted(a, d, base);
            lemma_redrawn(a.submitted(d));
        },
        _ => {
            reveal(AppV::typed);
            match a.composer {
                Some(c) => lemma_with_buffer(a, comments::pressed(c.buffer, code, mods)),
                None => lemma_redrawn(a),
            }
        },
    }
}

proof fn lemma_diff_key(a: AppV, code: KeyCode, ctrl: bool, shift: bool, base: Seq<ThreadV>)
    ensures
        goes_on(a, a.diff_key(code, ctrl, shift), base),
        rows_current(a) ==> rows_current(a.diff_key(code, ctrl, shift)),
{
    reveal(AppV::diff_key);
    match input::diff_act(code, ctrl, shift) {
        DiffAct::Extend(down) | DiffAct::Scroll(down) | DiffAct::Edge(down) | DiffAct::Comment(
            down,
        ) => lemma_diff_moves(a, down),
        DiffAct::Line(down) => lemma_moved_by(a, down, 1),
        DiffAct::HalfPage(down) => lemma_moved_by(a, down, text::at_least_one(a.height / 2)),
        DiffAct::Page(down) => lemma_moved_by(a, down, text::at_least_one(a.height)),
        DiffAct::NewThread | DiffAct::Reply => lemma_opened(a),
        DiffAct::Resolve => {
            reveal(AppV::resolve_toggled_here);
            match a.focused_thread() {
                Some(t) => lemma_resolve(a, t, base),
                None => lemma_status(a, "no comment thread here"@),
            }
        },
        DiffAct::Delete => {
            reveal(AppV::comment_deleted_here);
            match a.unit_at(a.selected) {
                Some((t, c)) => lemma_delete(a, t, c, base),
                None => lemma_status(a, "put the cursor on a comment to delete"@),
            }
        },
        DiffAct::File(next) => lemma_on_next_file(a, input::unit(next)),
        _ => lemma_focus(a),
    }
}

/// Whatever key is pressed, what is derived stays in agreement with what it is derived from,
/// the rows on the screen are those of the store, and the store stays one that a session makes
/// of its base: the action log can be replayed. The ids that are drawn for a new comment are
/// fresh.
pub proof fn law_key_keeps(a: AppV, code: KeyCode, mods: Mods, d: Drawn, base: Seq<ThreadV>)
    requires
        fresh(a, d),
    ensures
        a.wf() ==> a.keyed(code, mods, d).wf(),
        rows_current(a) ==> rows_current(a.keyed(code, mods, d)),
        reviewing(base, a) ==> reviewing(base, a.keyed(code, mods, d)),
{
    reveal(AppV::keyed);
    lemma_compose_key(a, code, mods, d, base);
    lemma_view_toggled(a);
    lemma_focus(a);
    lemma_wrap_toggled(a);
    lemma_tree_key(a, code);
    lemma_diff_key(a, code, mods.ctrl, mods.shift, base);
    lemma_same(a, AppV { quit: true, ..a });
    lemma_same(a, AppV { needs_clear: true, ..a });
}

proof fn lemma_button(a: AppV, b: ButtonV, d: Drawn, base: Seq<ThreadV>)
    requires
        fresh(a, d),
    ensures
        goes_on(a, a.button_pressed(b, d), base),
        rows_current(a) && !(b is Submit && discards(a)) ==> rows_current(a.button_pressed(b, d)),
{
    reveal(AppV::button_pressed);
    match b {
        ButtonV::AddComment => lemma_opened(a),
        ButtonV::Submit => lemma_submitted(a, d, base),
        ButtonV::Cancel => lemma_cancelled(a),
        ButtonV::Reply(t) => {
            lemma_on_thread(a, t);
            lemma_reply_opened(a.on_thread(t), t);
        },
        ButtonV::ToggleResolve(t) => {
            lemma_on_thread(a, t);
            lemma_resolve(a.on_thread(t), t, base);
        },
        ButtonV::Delete(t, c) => {
            lemma_on_thread(a, t);
            lemma_delete(a.on_thread(t), t, c, base);
        },
    }
}

proof fn lemma_mouse_parts(a: AppV, m: Mouse, at: Thumbs)
    ensures
        kept(a, a.clicked(m, at)),
        kept(a, a.dragged(m, at)),
        kept(a, a.wheeled(m, 3)),
        kept(a, a.wheeled(m, -3)),
{
    reveal(AppV::clicked);
    reveal(AppV::dragged);
    reveal(AppV::wheeled);
    reveal(AppV::diff_dragged);
    reveal(AppV::sidebar_dragged);
    reveal(AppV::resized);
    reveal(AppV::sidebar_scrolled);
    lemma_focus(a);
    lemma_same(a, a.diff_dragged(at.diff));
    lemma_same(a, a.sidebar_dragged(at.sidebar));
    lemma_same(a, a.resized(m.column));
    lemma_same(a, a.sidebar_scrolled(3));
    lemma_same(a, a.sidebar_scrolled(-3));
    lemma_scrolled(a.on_diff(), 3);
    lemma_scrolled(a.on_diff(), -3);
    lemma_diff_clicked(a, m.row, true);
    lemma_diff_clicked(a, m.row, false);
    lemma_sidebar_clicked(a, m.row);
}

proof fn lemma_diff_clicked(a: AppV, row: u16, anchor: bool)
    ensures
        kept(a, a.diff_clicked(row, anchor)),
{
    reveal(AppV::diff_clicked);
    reveal(AppV::with_click);
    lemma_focus(a);
    let b = a.on_diff();
    if let Some(i) = b.stop_for(b.row_at(row)) {
        lemma_same(b, b.with_click(i, anchor));
        lemma_visible(b.with_click(i, anchor));
    }
}

proof fn lemma_sidebar_clicked(a: AppV, row: u16)
    ensures
        kept(a, a.sidebar_clicked(row)),
{
    reveal(AppV::sidebar_clicked);
    let idx = a.sidebar_row_at(row);
    if idx < a.sidebar_rows.len() {
        let b = AppV { focus: state::Focus::Sidebar, ..a };
        lemma_same(a, b);
        match a.sidebar_rows[idx as int] {
            sidebar::SbRowV::Dir { path, .. } => {
                let c = AppV { sidebar_sel: idx, ..b };
                lemma_same(a, c);
                lemma_folded(c, path, !a.collapsed.contains(path));
            },
            sidebar::SbRowV::File { idx: fi, .. } => lemma_on_file(b, fi),
        }
    }
}

/// Whether the composer's submit button was clicked.
pub open spec fn submit_clicked(a: AppV, m: Mouse) -> bool {
    m.kind == MouseKind::Down && input::hit_among(a.button_hits, m.column, m.row, 0) == Some(
        ButtonV::Submit,
    )
}

/// Whatever the mouse does, the same is kept as with a key; but where its submit button finds
/// nothing to submit, the rows of the closed composer stay until rows are built again.
pub proof fn law_mouse_keeps(a: AppV, m: Mouse, at: Thumbs, d: Drawn, base: Seq<ThreadV>)
    requires
        fresh(a, d),
    ensures
        a.wf() ==> a.moused(m, at, d).wf(),
        rows_current(a) && !(submit_clicked(a, m) && discards(a)) ==> rows_current(
            a.moused(m, at, d),
        ),
        reviewing(base, a) ==> reviewing(base, a.moused(m, at, d)),
{
    reveal(AppV::moused);
    if let Some(b) = input::hit_among(a.button_hits, m.column, m.row, 0) {
        lemma_button(a, b, d, base);
    }
    lemma_mouse_parts(a, m, at);
    lemma_focus(a);
}

proof fn lemma_submitted_closes(a: AppV, d: Drawn)
    requires
        a.composer is Some,
    ensures
        a.submitted(d).composer is None,
{
    reveal(AppV::submitted);
    reveal(AppV::closed);
    reveal(AppV::thread_added);
    reveal(AppV::reply_added);
    let b = a.closed();
    let c = a.composer->0;
    let body = strs::trimmed(strs::joined(c.text.lines, '\n'));
    match c.target {
        TargetV::NewThread { file_idx, side, start, end } => lemma_rebuilt(
            b.thread_added(file_idx, side, LineRange { start, end }, body, d),
        ),
        TargetV::Reply { thread_id } => lemma_rebuilt(b.reply_added(thread_id, body, d)),
    }
}

/// No modifier is held.
pub open spec fn bare() -> Mods {
    Mods { ctrl: false, alt: false, shift: false }
}

/// Keyboard and mouse reach the same actions. The button on a line does what `i` does, the
/// buttons of a thread do what `r`, `R` and `D` do once the cursor is on the thread or on the
/// message, and the buttons of the composer do what Ctrl-S and Esc do. (Ctrl-S also builds the
/// rows anew where there was nothing to submit.)
pub proof fn law_buttons_do_what_keys_do(a: AppV, t: Seq<char>, c: Seq<char>, d: Drawn)
    ensures
        a.composer is None && a.active_pane() == state::Focus::Diff ==> a.button_pressed(
            ButtonV::AddComment,
            d,
        ) == a.keyed(KeyCode::Char('i'), bare(), d),
        ({
            let b = a.on_thread(t);
            b.composer is None && b.active_pane() == state::Focus::Diff ==> {
                &&& b.focused_thread() == Some(t) ==> a.button_pressed(ButtonV::Reply(t), d)
                    == b.keyed(KeyCode::Char('r'), bare(), d)
                &&& b.focused_thread() == Some(t) ==> a.button_pressed(ButtonV::ToggleResolve(t), d)
                    == b.keyed(KeyCode::Char('R'), bare(), d)
                &&& b.unit_at(b.selected) == Some((t, c)) ==> a.button_pressed(
                    ButtonV::Delete(t, c),
                    d,
                ) == b.keyed(KeyCode::Char('D'), bare(), d)
            }
        }),
        a.composer is Some ==> a.button_pressed(ButtonV::Cancel, d) == a.keyed(
            KeyCode::Esc,
            bare(),
            d,
        ),
        a.composer is Some ==> {
            let b = a.button_pressed(ButtonV::Submit, d);
            let k = a.keyed(KeyCode::Char('s'), (Mods { ctrl: true, ..bare() }), d);
            b.threads == k.threads && b.status == k.status && b.composer is None && k.composer is None
        },
{
    reveal(AppV::button_pressed);
    reveal(AppV::keyed);
    reveal(AppV::diff_key);
    reveal(AppV::compose_key);
    reveal(AppV::reply_opened);
    reveal(AppV::resolve_toggled_here);
    reveal(AppV::comment_deleted_here);
    if a.composer is Some {
        let e = a.cancelled();
        assert(e.composer is None) by {
            reveal(AppV::cancelled);
        }
        lemma_rebuilt(e);
        assert(e.redrawn() == e.rebuilt()) by {
            reveal(AppV::redrawn);
        }
        let s = a.submitted(d);
        lemma_submitted_closes(a, d);
        lemma_rebuilt(s);
        lemma_rows_rebuilt(s);
        assert(s.redrawn() == s.rebuilt()) by {
            reveal(AppV::redrawn);
        }
    }
}

/// Whatever is pasted, the same is kept as with a key.
pub proof fn law_paste_keeps(a: AppV, s: Seq<char>, base: Seq<ThreadV>)
    ensures
        a.wf() ==> a.pasted(s).wf(),
        rows_current(a) ==> rows_current(a.pasted(s)),
        reviewing(base, a) ==> reviewing(base, a.pasted(s)),
{
    reveal(AppV::pasted);
    if let Some(c) = a.composer {
        lemma_with_buffer(a, comments::filled(c.buffer, s));
    }
}

proof fn lemma_comment_synced(a: AppV, inner: u16)
    ensures
        kept(a, a.comment_synced(inner)),
{
    reveal(AppV::wf);
    reveal(AppV::comment_synced);
    let cw = a.body_width(inner as nat);
    let w = AppV { comment_wrap: cw, ..a };
    lemma_spans_frame(a, w);
    lemma_rebuilt(w);
    if a.threads.len() == 0 && a.composer is None {
        box_laws::law_width_is_that_of_boxes(a.files, a.threads, a.comment_wrap, cw);
    }
}

/// Drawing a frame keeps the same, and touches no thread.
pub proof fn law_frame_keeps(a: AppV, p: Places, hits: Seq<HitV>, base: Seq<ThreadV>)
    ensures
        a.laid_out(p).with_hits(hits).threads == a.threads,
        a.wf() ==> a.laid_out(p).with_hits(hits).wf(),
        rows_current(a) ==> rows_current(a.laid_out(p).with_hits(hits)),
        reviewing(base, a) ==> reviewing(base, a.laid_out(p).with_hits(hits)),
{
    reveal(AppV::laid_out);
    reveal(AppV::placed);
    reveal(AppV::with_diff_area);
    reveal(AppV::scroll_kept);
    reveal(AppV::with_hits);
    let inner = crate::ui::app::render::inside_of(p.panel);
    lemma_comment_synced(a, inner.width);
    let b = a.comment_synced(inner.width);
    let c = b.placed(p.tree, inner);
    lemma_same(b, c);
    lemma_with_heights(c, inner.width as usize);
    let e = c.with_heights(inner.width as usize);
    let f = e.with_diff_area(inner);
    lemma_same(e, f);
    lemma_with_heights(f, f.diff_area.width as usize);
    let g = f.with_heights(f.diff_area.width as usize);
    lemma_same(g, g.scroll_kept());
    lemma_same(g, g.scroll_kept().with_hits(hits));
}

proof fn lemma_with_heights(a: AppV, width: usize)
    ensures
        kept(a, a.with_heights(width)),
{
    reveal(AppV::wf);
    reveal(AppV::with_heights);
    lemma_spans_frame(a, a.with_heights(width));
}

/// A session starts well formed, with its base as the store and rows that show it.
pub proof fn law_start(files: Seq<DiffFileV>, base: Seq<ThreadV>)
    requires
        actions::distinct_ids(base),
        forall|i: int| 0 <= i < base.len() ==> (#[trigger] base[i]).comments.len() > 0,
    ensures
        start::initial(files, base).wf(),
        rows_current(start::initial(files, base)),
        reviewing(base, start::initial(files, base)),
{
    reveal(AppV::wf);
    reveal(AppV::at_first);
    let b = start::blank_state(files, base);
    lemma_resynced(b);
    lemma_spans_frame(b.resynced(), b.resynced().at_first());
    assert(rows_current(start::initial(files, base))) by {
        reveal(AppV::resynced);
        reveal(AppV::with_span);
    }
    actions::law_untouched_session_logs_nothing(base);
}

/// A comment that came with the input is never deleted.
pub proof fn law_input_comments_stay(a: AppV, thread_id: Seq<char>, comment_id: Seq<char>)
    requires
        a.base_ids.contains(comment_id),
    ensures
        a.comment_deleted(thread_id, comment_id).threads == a.threads,
{
    reveal(AppV::comment_deleted);
}

} // verus!
