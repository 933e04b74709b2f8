//! What the cursor stays on.
use crate::comments::actions;
use crate::diff::model::Side;
use crate::ui::app::comments;
use crate::ui::app::laws;
use crate::ui::app::state::{AppV, PredV, SelKeyV, ViewMode};
use crate::ui::render_rows::box_laws;
use crate::ui::render_rows::deletion_laws;
use crate::ui::render_rows::laws as row_laws;
use crate::ui::render_rows::line_laws;
use crate::ui::render_rows::rows::RowKindV;
use crate::ui::render_rows::whole_laws;
use vstd::prelude::*;

verus! {

/// Toggling the layout keeps the cursor on the same line or comment, where the other layout
/// has it.
pub proof fn law_view_toggle_keeps_cursor(a: AppV)
    requires
        a.sel_key() is Some,
        a.with_other_view().view_ensured().resynced().find_key(a.sel_key()) is Some,
    ensures
        a.view_toggled().sel_key() == a.sel_key(),
        a.view_toggled().view != a.view,
{
    reveal(AppV::view_toggled);
    reveal(AppV::with_other_view);
    let k = a.sel_key();
    let b = a.with_other_view().view_ensured().resynced();
    assert(b.view != a.view) by {
        reveal(AppV::view_ensured);
        reveal(AppV::view_built);
        reveal(AppV::resynced);
        reveal(AppV::with_span);
    }
    let i = b.find_key(k)->0;
    reveal(AppV::find_key);
    lemma_found(b, k->0, 0, b.active_len(), i);
    let c = b.with_cursor_on(k);
    assert(c.selected == i && c.view == b.view && c.rows == b.rows && c.split_rows == b.split_rows)
        by {
        reveal(AppV::with_cursor_on);
        reveal(AppV::row_for);
    }
    let d = c.with_anchor_on(a.anchor_key());
    let e = d.with_file_of(d.selected).with_span().recentered().visible();
    assert(e.selected == i && e.view == b.view && e.rows == b.rows && e.split_rows
        == b.split_rows) by {
        reveal(AppV::with_anchor_on);
        reveal(AppV::with_file_of);
        reveal(AppV::with_span);
        reveal(AppV::recentered);
        reveal(AppV::visible);
    }
    lemma_key_of(b, k->0, i);
    assert(e.sel_key() == b.sel_key_at(i)) by {
        reveal(AppV::sel_key);
    }
}

/// Building the rows anew keeps the cursor on the same line or comment, where the new rows have
/// it.
pub proof fn law_rebuild_keeps_cursor(a: AppV)
    requires
        a.sel_key() is Some,
        a.view_built().other_stale().resynced().find_key(a.sel_key()) is Some,
    ensures
        a.rebuilt().sel_key() == a.sel_key(),
{
    reveal(AppV::rebuilt);
    let k = a.sel_key();
    let b = a.view_built().other_stale().resynced();
    let i = b.find_key(k)->0;
    reveal(AppV::find_key);
    lemma_found(b, k->0, 0, b.active_len(), i);
    let c = b.with_cursor_on(k);
    assert(c.selected == i && c.view == b.view && c.rows == b.rows && c.split_rows == b.split_rows)
        by {
        reveal(AppV::with_cursor_on);
        reveal(AppV::row_for);
    }
    let e = c.with_file_of(c.selected).with_span().visible();
    assert(e.selected == i && e.view == b.view && e.rows == b.rows && e.split_rows
        == b.split_rows) by {
        reveal(AppV::with_file_of);
        reveal(AppV::with_span);
        reveal(AppV::visible);
    }
    lemma_key_of(b, k->0, i);
    assert(e.sel_key() == b.sel_key_at(i)) by {
        reveal(AppV::sel_key);
    }
}

proof fn lemma_filtered_from<T>(s: Seq<T>, p: spec_fn(T) -> bool, x: T)
    requires
        s.filter(p).contains(x),
    ensures
        s.contains(x),
    decreases s.len(),
{
    reveal(Seq::filter);
    if s.len() > 0 {
        let t = s.drop_last();
        let j = choose|j: int| 0 <= j < s.filter(p).len() && s.filter(p)[j] == x;
        if j < t.filter(p).len() {
            assert(t.filter(p)[j] == x);
            lemma_filtered_from(t, p, x);
            let i = choose|i: int| 0 <= i < t.len() && t[i] == x;
            assert(s[i] == x);
        } else {
            assert(s[s.len() - 1] == x);
        }
    }
}

/// Whatever becomes of threads and composer, the cursor stays on its line of the diff when the
/// rows are built anew.
pub proof fn law_edits_keep_line(a: AppV, b: AppV, f: nat, side: Side, x: u32)
    requires
        laws::rows_current(a),
        a.sel_key() == Some(SelKeyV::Line(f, side, x)),
        b.files == a.files,
        b.view == a.view,
        b.rows == a.rows,
        b.split_rows == a.split_rows,
        b.selected == a.selected,
    ensures
        b.rebuilt().sel_key() == a.sel_key(),
{
    let k = SelKeyV::Line(f, side, x);
    reveal(AppV::sel_key);
    let n = b.view_built().other_stale().resynced();
    reveal(AppV::view_built);
    reveal(AppV::other_stale);
    reveal(AppV::resynced);
    reveal(AppV::with_span);
    let i = a.selected as int;
    let t = comments::composer_of(a.composer);
    let u = comments::composer_of(b.composer);
    box_laws::law_boxes_leave_the_diff(a.files, a.threads, a.comment_wrap, t);
    box_laws::law_boxes_leave_the_diff(b.files, b.threads, b.comment_wrap, u);
    match a.view {
        ViewMode::Unified => {
            let p = box_laws::of_diff();
            let r = a.rows[i];
            a.rows.lemma_filter_contains(p, i);
            lemma_filtered_from(n.rows, p, r);
            let j = choose|j: int| 0 <= j < n.rows.len() && n.rows[j] == r;
            assert(n.anchor_at(j as nat) == Some((f, side, x)));
        },
        ViewMode::Split => {
            let p = box_laws::of_split_diff();
            let r = a.split_rows[i];
            a.split_rows.lemma_filter_contains(p, i);
            lemma_filtered_from(n.split_rows, p, r);
            let j = choose|j: int| 0 <= j < n.split_rows.len() && n.split_rows[j] == r;
            assert(n.anchor_at(j as nat) == Some((f, side, x)));
        },
    }
    let j = choose|j: nat| j < n.active_len() && #[trigger] n.anchor_at(j) == Some((f, side, x));
    assert(n.holds(PredV::Key(k), j)) by {
        reveal(AppV::holds);
    }
    lemma_finds(n, k, 0, n.active_len(), j);
    assert(n.find_key(b.sel_key()) is Some) by {
        reveal(AppV::find_key);
    }
    law_rebuild_keeps_cursor(b);
}

impl AppV {
    /// A handle to what row `i` is.
    pub open spec fn sel_key_at(self, i: nat) -> Option<SelKeyV> {
        match self.unit_id(i) {
            Some(c) => Some(SelKeyV::Comment(c)),
            None => self.line_key(i),
        }
    }
}

proof fn lemma_found(a: AppV, k: SelKeyV, i: nat, end: nat, found: nat)
    requires
        a.first(PredV::Key(k), i, end) == Some(found),
    ensures
        i <= found < end,
        a.holds(PredV::Key(k), found),
    decreases end - i,
{
    if i < end && !a.holds(PredV::Key(k), i) {
        lemma_found(a, k, i + 1, end, found);
    }
}

proof fn lemma_key_of(a: AppV, k: SelKeyV, i: nat)
    requires
        a.holds(PredV::Key(k), i),
    ensures
        a.sel_key_at(i) == Some(k),
{
    reveal(AppV::holds);
}

/// Toggling the layout keeps the cursor on its line, where that is one of the new side: an
/// addition or an unchanged line. (A deletion may stand beside an addition in the split layout,
/// and the row they share goes by the addition.)
pub proof fn law_view_toggle_keeps_new_line(a: AppV, f: nat, x: u32)
    requires
        laws::rows_current(a),
        a.sel_key() == Some(SelKeyV::Line(f, Side::New, x)),
    ensures
        a.view_toggled().sel_key() == a.sel_key(),
        a.view_toggled().view != a.view,
{
    let k = SelKeyV::Line(f, Side::New, x);
    let b = a.with_other_view().view_ensured().resynced();
    reveal(AppV::with_other_view);
    reveal(AppV::view_ensured);
    reveal(AppV::view_built);
    reveal(AppV::resynced);
    reveal(AppV::with_span);
    line_laws::law_new_lines_in_both_layouts(
        a.files,
        a.threads,
        a.comment_wrap,
        comments::composer_of(a.composer),
        f,
        x,
    );
    assert(a.line_key(a.selected) == Some(k)) by {
        reveal(AppV::sel_key);
    }
    let i = a.selected as int;
    match a.view {
        ViewMode::Unified => {
            let p = line_laws::at_row(f, x);
            assert(p(a.rows[i]));
            row_laws::lemma_counted(a.rows, p, i);
            let q = line_laws::at_split(f, x);
            let j = row_laws::lemma_counted_at(b.split_rows, q);
            assert(b.anchor_at(j as nat) == Some((f, Side::New, x)));
        },
        ViewMode::Split => {
            let p = line_laws::at_split(f, x);
            assert(p(a.split_rows[i]));
            row_laws::lemma_counted(a.split_rows, p, i);
            let q = line_laws::at_row(f, x);
            let j = row_laws::lemma_counted_at(b.rows, q);
            assert(b.anchor_at(j as nat) == Some((f, Side::New, x)));
        },
    }
    let j = choose|j: nat|
        j < b.active_len() && #[trigger] b.anchor_at(j) == Some((f, Side::New, x));
    assert(b.holds(PredV::Key(k), j)) by {
        reveal(AppV::holds);
    }
    lemma_finds(b, k, 0, b.active_len(), j);
    assert(b.find_key(a.sel_key()) is Some) by {
        reveal(AppV::find_key);
    }
    law_view_toggle_keeps_cursor(a);
}

/// Toggling the layout keeps the cursor on its line, where that is a deletion that stands beside
/// no addition in the split layout.
pub proof fn law_view_toggle_keeps_lone_deletion(a: AppV, f: nat, x: u32)
    requires
        laws::rows_current(a),
        a.sel_key() == Some(SelKeyV::Line(f, Side::Old, x)),
        f < a.files.len(),
        deletion_laws::has_lone_deletion(a.files[f as int], x),
    ensures
        a.view_toggled().sel_key() == a.sel_key(),
        a.view_toggled().view != a.view,
{
    let k = SelKeyV::Line(f, Side::Old, x);
    let b = a.with_other_view().view_ensured().resynced();
    reveal(AppV::with_other_view);
    reveal(AppV::view_ensured);
    reveal(AppV::view_built);
    reveal(AppV::resynced);
    reveal(AppV::with_span);
    deletion_laws::law_lone_deletions_in_both_layouts(
        a.files,
        a.threads,
        a.comment_wrap,
        comments::composer_of(a.composer),
        f,
        x,
    );
    let j = match a.view {
        ViewMode::Unified => choose|j: int|
            0 <= j < b.split_rows.len() && deletion_laws::is_old_split(
                #[trigger] b.split_rows[j],
                f,
                x,
            ),
        ViewMode::Split => choose|j: int|
            0 <= j < b.rows.len() && deletion_laws::is_old(#[trigger] b.rows[j], f, x),
    };
    assert(b.anchor_at(j as nat) == Some((f, Side::Old, x)));
    assert(b.holds(PredV::Key(k), j as nat)) by {
        reveal(AppV::holds);
    }
    lemma_finds(b, k, 0, b.active_len(), j as nat);
    assert(b.find_key(a.sel_key()) is Some) by {
        reveal(AppV::find_key);
    }
    law_view_toggle_keeps_cursor(a);
}

proof fn lemma_first_of_message(a: AppV, c: Seq<char>, i: nat) -> (j: nat)
    requires
        a.unit_id(i) == Some(c),
    ensures
        j <= i,
        a.holds(PredV::Key(SelKeyV::Comment(c)), j),
    decreases i,
{
    if i > 0 && a.unit_id((i - 1) as nat) == Some(c) {
        lemma_first_of_message(a, c, (i - 1) as nat)
    } else {
        reveal(AppV::holds);
        i
    }
}

/// Toggling the layout keeps the cursor on its comment, where no two threads share an id.
pub proof fn law_view_toggle_keeps_comment(a: AppV, c: Seq<char>)
    requires
        laws::rows_current(a),
        actions::distinct_ids(a.threads),
        a.sel_key() == Some(SelKeyV::Comment(c)),
    ensures
        a.view_toggled().sel_key() == a.sel_key(),
        a.view_toggled().view != a.view,
{
    let k = SelKeyV::Comment(c);
    let b = a.with_other_view().view_ensured().resynced();
    reveal(AppV::with_other_view);
    reveal(AppV::view_ensured);
    reveal(AppV::view_built);
    reveal(AppV::resynced);
    reveal(AppV::with_span);
    reveal(AppV::sel_key);
    assert(a.unit_id(a.selected) == Some(c));
    let line = a.comment_at(a.selected)->0;
    whole_laws::law_views_show_the_same_boxes(
        a.files,
        a.threads,
        a.comment_wrap,
        comments::composer_of(a.composer),
        line,
    );
    let i = a.selected as int;
    let j = match a.view {
        ViewMode::Unified => {
            assert(whole_laws::box_lines(a.rows).contains(line)) by {
                assert(a.rows[i].kind == RowKindV::Comment(line));
            }
            choose|j: int|
                0 <= j < b.split_rows.len() && whole_laws::is_line(#[trigger] b.split_rows[j], line)
        },
        ViewMode::Split => {
            assert(whole_laws::split_box_lines(a.split_rows).contains(line)) by {
                assert(whole_laws::is_line(a.split_rows[i], line));
            }
            choose|j: int|
                0 <= j < b.rows.len() && (#[trigger] b.rows[j]).kind == RowKindV::Comment(line)
        },
    };
    assert(b.unit_id(j as nat) == Some(c));
    let m = lemma_first_of_message(b, c, j as nat);
    lemma_finds(b, k, 0, b.active_len(), m);
    assert(b.find_key(a.sel_key()) is Some) by {
        reveal(AppV::find_key);
    }
    law_view_toggle_keeps_cursor(a);
}

proof fn lemma_finds(a: AppV, k: SelKeyV, i: nat, end: nat, j: nat)
    requires
        i <= j < end,
        a.holds(PredV::Key(k), j),
    ensures
        a.first(PredV::Key(k), i, end) is Some,
    decreases end - i,
{
    if !a.holds(PredV::Key(k), i) {
        lemma_finds(a, k, i + 1, end, j);
    }
}

} // verus!
