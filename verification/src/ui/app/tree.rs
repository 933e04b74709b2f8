//! The file tree of the sidebar: its cursor, its folding and its scrolling.
use crate::strs;
use crate::strs::same_text;
use crate::ui::app::nav;
use crate::ui::app::nav::step;
use crate::ui::app::state::{App, AppV, Focus};
use crate::ui::app::wrap;
use crate::ui::app::wrap::sat_sub;
use crate::ui::render_rows::threads::has_id;
use crate::ui::sidebar;
use crate::ui::sidebar::{build_sidebar_rows, dir_of, dir_segments, SbRow, SbRowV};
use vstd::prelude::*;

verus! {

/// The path of the directory `d` levels down.
pub open spec fn ancestor(segs: Seq<Seq<char>>, d: nat) -> Seq<char>
    decreases d,
{
    if d == 0 {
        segs[0]
    } else {
        ancestor(segs, (d - 1) as nat).push('/') + segs[d as int]
    }
}

/// The strings other than `s`, of the first `n`.
pub open spec fn without_among(set: Seq<Seq<char>>, s: Seq<char>, n: nat) -> Seq<Seq<char>>
    decreases n,
{
    if n == 0 {
        Seq::empty()
    } else {
        let before = without_among(set, s, (n - 1) as nat);
        if set[n - 1] == s {
            before
        } else {
            before.push(set[n - 1])
        }
    }
}

/// The strings other than `s`.
pub open spec fn without(set: Seq<Seq<char>>, s: Seq<char>) -> Seq<Seq<char>> {
    without_among(set, s, set.len())
}

/// The collapsed directories without the `n` outermost ancestors.
pub open spec fn opened(collapsed: Seq<Seq<char>>, segs: Seq<Seq<char>>, n: nat) -> Seq<Seq<char>>
    decreases n,
{
    if n == 0 {
        collapsed
    } else {
        without(opened(collapsed, segs, (n - 1) as nat), ancestor(segs, (n - 1) as nat))
    }
}

/// Whether one of the `n` outermost ancestors was collapsed.
pub open spec fn any_collapsed(collapsed: Seq<Seq<char>>, segs: Seq<Seq<char>>, n: nat) -> bool
    decreases n,
{
    n > 0 && (any_collapsed(collapsed, segs, (n - 1) as nat) || opened(
        collapsed,
        segs,
        (n - 1) as nat,
    ).contains(ancestor(segs, (n - 1) as nat)))
}

/// The first row from `i` on that is directory `path`.
pub open spec fn dir_row(rows: Seq<SbRowV>, path: Seq<char>, i: nat) -> Option<nat>
    decreases rows.len() - i,
{
    if i >= rows.len() {
        None
    } else {
        match rows[i as int] {
            SbRowV::Dir { path: p, .. } if p == path => Some(i),
            _ => dir_row(rows, path, i + 1),
        }
    }
}

/// The top row of a list of `h` lines that shows row `r`, and the one above it.
pub open spec fn scroll_to(scroll: nat, r: nat, h: nat) -> nat {
    let target = wrap::monus(r as int, 1);
    if h == 0 {
        scroll
    } else if target < scroll {
        target
    } else if r >= scroll + h {
        (r + 1 - h) as nat
    } else {
        scroll
    }
}

impl AppV {
    /// How far the file list can be scrolled.
    pub open spec fn sidebar_max(self) -> nat {
        wrap::monus(self.sidebar_rows.len() as int, self.sidebar_area.height as int)
    }

    /// Scrolled as little as shows the sidebar's cursor, with the row above it.
    #[verifier::opaque]
    pub open spec fn sidebar_revealed(self) -> AppV {
        AppV {
            sidebar_scroll: scroll_to(
                self.sidebar_scroll,
                nav::smaller(self.sidebar_sel, wrap::monus(self.sidebar_rows.len() as int, 1)),
                self.sidebar_area.height as nat,
            ),
            ..self
        }
    }

    /// With the tree as the collapsed directories have it.
    #[verifier::opaque]
    pub open spec fn sidebar_rebuilt(self) -> AppV {
        let rows = sidebar::sidebar_view(self.files, self.collapsed);
        let a = AppV {
            sidebar_rows: rows,
            file_to_sbrow: sidebar::row_map(rows, self.files.len()),
            ..self
        };
        AppV { sidebar_scroll: nav::smaller(a.sidebar_scroll, a.sidebar_max()), ..a }
    }

    /// With all directories that file `fi` lies in open.
    #[verifier::opaque]
    pub open spec fn file_revealed(self, fi: nat) -> AppV {
        if fi < self.files.len() {
            let segs = sidebar::segments(self.files[fi as int].display_path());
            if any_collapsed(self.collapsed, segs, segs.len()) {
                AppV {
                    collapsed: opened(self.collapsed, segs, segs.len()),
                    ..self
                }.sidebar_rebuilt()
            } else {
                self
            }
        } else {
            self
        }
    }

    /// With directory `path` collapsed or open.
    #[verifier::opaque]
    pub open spec fn with_dir(self, path: Seq<char>, collapse: bool) -> AppV {
        AppV {
            collapsed: if collapse {
                self.collapsed.push(path)
            } else {
                without(self.collapsed, path)
            },
            ..self
        }
    }

    /// With the sidebar's cursor on directory `path`, if that is a row.
    #[verifier::opaque]
    pub open spec fn on_dir(self, path: Seq<char>) -> AppV {
        AppV {
            sidebar_sel: nav::smaller(
                nav::or_value(dir_row(self.sidebar_rows, path, 0), self.sidebar_sel),
                wrap::monus(self.sidebar_rows.len() as int, 1),
            ),
            ..self
        }
    }

    /// With directory `path` collapsed or open, and the cursor on it.
    #[verifier::opaque]
    pub open spec fn folded(self, path: Seq<char>, collapse: bool) -> AppV {
        if self.collapsed.contains(path) == collapse {
            self
        } else {
            self.with_dir(path, collapse).sidebar_rebuilt().on_dir(path).sidebar_revealed()
        }
    }

    /// The directory of file `fi`, if it lies in one.
    pub open spec fn dir_of_file(self, fi: nat) -> Option<Seq<char>> {
        if fi < self.files.len() && sidebar::dir_part(self.files[fi as int].display_path()).len()
            > 0 {
            Some(sidebar::dir_part(self.files[fi as int].display_path()))
        } else {
            None
        }
    }

    /// With the directory under the cursor collapsed or open. Collapsing on a file, or on a
    /// directory that is collapsed already, collapses the directory around it.
    #[verifier::opaque]
    pub open spec fn folded_here(self, collapse: bool) -> AppV {
        if self.sidebar_sel >= self.sidebar_rows.len() {
            self
        } else {
            match self.sidebar_rows[self.sidebar_sel as int] {
                SbRowV::Dir { path, .. } => if collapse && self.collapsed.contains(path) {
                    if sidebar::dir_part(path).len() > 0 {
                        self.folded(sidebar::dir_part(path), true)
                    } else {
                        self
                    }
                } else {
                    self.folded(path, collapse)
                },
                SbRowV::File { idx, .. } => match self.dir_of_file(idx) {
                    Some(d) => if collapse {
                        self.folded(d, true)
                    } else {
                        self
                    },
                    None => self,
                },
            }
        }
    }

    /// With the directory under the cursor open where it was collapsed, and the other way
    /// round.
    #[verifier::opaque]
    pub open spec fn fold_toggled_here(self) -> AppV {
        if self.sidebar_sel >= self.sidebar_rows.len() {
            self
        } else {
            match self.sidebar_rows[self.sidebar_sel as int] {
                SbRowV::Dir { path, .. } => self.folded(path, !self.collapsed.contains(path)),
                _ => self,
            }
        }
    }

    /// With the file under the sidebar's cursor, if it is on one, in the diff pane.
    #[verifier::opaque]
    pub open spec fn activated(self) -> AppV {
        if self.sidebar_sel >= self.sidebar_rows.len() {
            self
        } else {
            match self.sidebar_rows[self.sidebar_sel as int] {
                SbRowV::File { idx, .. } => if idx != self.current_file {
                    self.on_file(idx).sidebar_revealed()
                } else {
                    self.sidebar_revealed()
                },
                _ => self,
            }
        }
    }

    /// With the sidebar's cursor one row down or up, if there is one.
    #[verifier::opaque]
    pub open spec fn sidebar_moved(self, down: bool) -> AppV {
        let next = if down {
            self.sidebar_sel as int + 1
        } else {
            self.sidebar_sel - 1
        };
        if next < 0 || next >= self.sidebar_rows.len() {
            self
        } else {
            AppV { sidebar_sel: next as nat, ..self }.activated()
        }
    }

    /// With the sidebar's cursor on its first or last row.
    #[verifier::opaque]
    pub open spec fn sidebar_at_edge(self, last: bool) -> AppV {
        if self.sidebar_rows.len() == 0 {
            self
        } else {
            AppV {
                sidebar_sel: if last {
                    (self.sidebar_rows.len() - 1) as nat
                } else {
                    0
                },
                ..self
            }.activated()
        }
    }

    /// The file list scrolled by `delta` rows.
    #[verifier::opaque]
    pub open spec fn sidebar_scrolled(self, delta: int) -> AppV {
        AppV { sidebar_scroll: nav::clamped(self.sidebar_scroll + delta, 0, self.sidebar_max()), ..self }
    }

    /// The row of the file list at terminal row `row`.
    pub open spec fn sidebar_row_at(self, row: u16) -> nat {
        nav::smaller(self.sidebar_scroll, self.sidebar_max()) + wrap::monus(
            row as int,
            self.sidebar_area.y as int,
        )
    }

    /// After a click into the file list: a directory is folded or unfolded, a file is opened.
    #[verifier::opaque]
    pub open spec fn sidebar_clicked(self, row: u16) -> AppV {
        let idx = self.sidebar_row_at(row);
        if idx >= self.sidebar_rows.len() {
            self
        } else {
            let a = AppV { focus: Focus::Sidebar, ..self };
            match self.sidebar_rows[idx as int] {
                SbRowV::Dir { path, .. } => {
                    AppV { sidebar_sel: idx, ..a }.folded(path, !self.collapsed.contains(path))
                },
                SbRowV::File { idx: fi, .. } => a.on_file(fi),
            }
        }
    }
}

/// Take every `s` out of a set of strings, and say whether there was one.
fn remove_text(set: &mut Vec<String>, s: &str) -> (r: bool)
    ensures
        strs::views(final(set)@) == without(strs::views(old(set)@), s@),
        r == strs::views(old(set)@).contains(s@),
{
    let ghost all = strs::views(set@);
    let found = has_id(set, s);
    let mut kept: Vec<String> = Vec::new();
    let mut i: usize = 0;
    assert(strs::views(kept@) == Seq::<Seq<char>>::empty());
    while i < set.len()
        invariant
            all == strs::views(set@),
            0 <= i <= set.len(),
            strs::views(kept@) == without_among(all, s@, i as nat),
        decreases set.len() - i,
    {
        assert(all[i as int] == set@[i as int]@);
        if !same_text(set[i].as_str(), s) {
            let ghost before = kept@;
            kept.push(set[i].clone());
            assert(strs::views(kept@) == strs::views(before).push(all[i as int]));
        }
        i += 1;
    }
    *set = kept;
    found
}

/// The top row of a list of `h` lines that shows row `r`, and the one above it (its dir
/// header or parent file).
fn scrolled_to(scroll: usize, r: usize, h: usize) -> (n: usize)
    ensures
        n == scroll_to(scroll as nat, r as nat, h as nat),
{
    let target: usize = sat_sub(r, 1);
    if h == 0 {
        scroll
    } else if target < scroll {
        target
    } else if r >= h && r - h >= scroll {
        r - h + 1
    } else {
        scroll
    }
}

impl App {
    /// Scroll the list so the sidebar cursor row is visible.
    pub fn reveal_sidebar(&mut self)
        ensures
            final(self)@ == old(self)@.sidebar_revealed(),
    {
        reveal(AppV::sidebar_revealed);

        let last: usize = sat_sub(self.sidebar_rows.len(), 1);
        assert(self@.sidebar_rows.len() == self.sidebar_rows.len());
        let r: usize = if self.sidebar_sel < last {
            self.sidebar_sel
        } else {
            last
        };
        self.sidebar_scroll = scrolled_to(
            self.sidebar_scroll,
            r,
            self.sidebar_area.height as usize,
        );
    }

    /// How far the file list can be scrolled.
    fn sidebar_max(&self) -> (r: usize)
        ensures
            r == self@.sidebar_max(),
    {
        assert(self@.sidebar_rows.len() == self.sidebar_rows.len());
        sat_sub(self.sidebar_rows.len(), self.sidebar_area.height as usize)
    }

    /// Rebuild the sidebar tree from the current collapse set.
    pub fn rebuild_sidebar(&mut self)
        ensures
            final(self)@ == old(self)@.sidebar_rebuilt(),
    {
        reveal(AppV::sidebar_rebuilt);

        let (sr, map) = build_sidebar_rows(&self.changeset, &self.collapsed);
        self.sidebar_rows = sr;
        self.file_to_sbrow = map;
        // The row count shrank/grew; keep the scroll within bounds so clicks and rendering
        // agree.
        let max: usize = self.sidebar_max();
        if self.sidebar_scroll > max {
            self.sidebar_scroll = max;
        }
    }

    /// Expand every ancestor directory of `fi` so its row is visible.
    pub fn reveal_file_in_tree(&mut self, fi: usize)
        ensures
            final(self)@ == old(self)@.file_revealed(fi as nat),
    {
        reveal(AppV::file_revealed);

        if fi >= self.changeset.files.len() {
            return ;
        }
        assert(self.changeset.files@[fi as int]@ == self@.files[fi as int]);
        let segs = dir_segments(self.changeset.files[fi].display_path());
        let ghost sv = strs::views(segs@);
        let ghost a = self@;
        let mut changed = false;
        let mut path = String::new();
        let mut d: usize = 0;
        while d < segs.len()
            invariant
                sv == strs::views(segs@),
                0 <= d <= segs.len(),
                d > 0 ==> path@ == ancestor(sv, (d - 1) as nat),
                d == 0 ==> path@ == Seq::<char>::empty(),
                changed == any_collapsed(a.collapsed, sv, d as nat),
                self@ == (AppV { collapsed: opened(a.collapsed, sv, d as nat), ..a }),
            decreases segs.len() - d,
        {
            assert(sv[d as int] == segs@[d as int]@);
            if d > 0 {
                path.push('/');
            }
            path.append(segs[d].as_str());
            assert(path@ == ancestor(sv, d as nat));
            if remove_text(&mut self.collapsed, path.as_str()) {
                changed = true;
            }
            d += 1;
        }
        if changed {
            self.rebuild_sidebar();
        } else {
            proof {
                lemma_opened_nothing(a.collapsed, sv, sv.len());
            }
        }
    }

    fn mark_dir(&mut self, path: &str, collapsed: bool)
        ensures
            final(self)@ == old(self)@.with_dir(path@, collapsed),
    {
        reveal(AppV::with_dir);

        if collapsed {
            let ghost before = self.collapsed@;
            self.collapsed.push(strs::owned(path));
            assert(strs::views(self.collapsed@) == strs::views(before).push(path@));
        } else {
            remove_text(&mut self.collapsed, path);
        }
    }

    fn find_dir(&self, path: &str) -> (r: Option<usize>)
        ensures
            crate::ui::app::state::index_view(r) == dir_row(self@.sidebar_rows, path@, 0),
    {
        let len: usize = self.sidebar_rows.len();
        let mut i: usize = 0;
        let ghost found = dir_row(self@.sidebar_rows, path@, 0);
        while i < len
            invariant
                len == self.sidebar_rows.len(),
                0 <= i <= len,
                found == dir_row(self@.sidebar_rows, path@, 0),
                found == dir_row(self@.sidebar_rows, path@, i as nat),
            decreases len - i,
        {
            assert(self@.sidebar_rows[i as int] == self.sidebar_rows@[i as int]@);
            match &self.sidebar_rows[i] {
                SbRow::Dir { path: p, .. } => {
                    if same_text(p.as_str(), path) {
                        return Some(i);
                    }
                },
                SbRow::File { .. } => {},
            }
            i += 1;
        }
        None
    }

    fn select_dir(&mut self, path: &str)
        ensures
            final(self)@ == old(self)@.on_dir(path@),
    {
        reveal(AppV::on_dir);

        let sel: usize = match self.find_dir(path) {
            Some(i) => i,
            None => self.sidebar_sel,
        };
        assert(self@.sidebar_rows.len() == self.sidebar_rows.len());
        let last: usize = sat_sub(self.sidebar_rows.len(), 1);
        self.sidebar_sel = if sel < last {
            sel
        } else {
            last
        };
    }

    /// Open or close directory `path`, keeping the cursor on its row.
    pub fn set_dir_collapsed(&mut self, path: String, collapsed: bool)
        ensures
            final(self)@ == old(self)@.folded(path@, collapsed),
    {
        reveal(AppV::folded);

        if has_id(&self.collapsed, path.as_str()) == collapsed {
            return ;
        }
        self.mark_dir(path.as_str(), collapsed);
        self.rebuild_sidebar();
        self.select_dir(path.as_str());
        self.reveal_sidebar();
    }

    /// Toggle the directory `path`.
    pub fn toggle_dir(&mut self, path: String)
        ensures
            final(self)@ == old(self)@.folded(path@, !old(self)@.collapsed.contains(path@)),
    {
        let collapsed = has_id(&self.collapsed, path.as_str());
        self.set_dir_collapsed(path, !collapsed);
    }

    /// The path of the directory at row `i` of the sidebar.
    fn dir_at(&self, i: usize) -> (r: Option<String>)
        ensures
            strs::opt_view(r) == (if i < self@.sidebar_rows.len() {
                match self@.sidebar_rows[i as int] {
                    SbRowV::Dir { path, .. } => Some(path),
                    _ => None,
                }
            } else {
                None
            }),
    {
        if i < self.sidebar_rows.len() {
            assert(self@.sidebar_rows[i as int] == self.sidebar_rows@[i as int]@);
            match &self.sidebar_rows[i] {
                SbRow::Dir { path, .. } => Some(path.clone()),
                SbRow::File { .. } => None,
            }
        } else {
            None
        }
    }

    /// The file at row `i` of the sidebar.
    fn file_at(&self, i: usize) -> (r: Option<usize>)
        ensures
            crate::ui::app::state::index_view(r) == (if i < self@.sidebar_rows.len() {
                match self@.sidebar_rows[i as int] {
                    SbRowV::File { idx, .. } => Some(idx),
                    _ => None,
                }
            } else {
                None
            }),
    {
        if i < self.sidebar_rows.len() {
            assert(self@.sidebar_rows[i as int] == self.sidebar_rows@[i as int]@);
            match &self.sidebar_rows[i] {
                SbRow::File { idx, .. } => Some(*idx),
                SbRow::Dir { .. } => None,
            }
        } else {
            None
        }
    }

    /// Collapse (`collapse = true`) or expand the directory under the cursor. Collapsing
    /// while on a file row closes its containing folder and moves the cursor onto that
    /// folder; on an already-closed folder it closes its container instead.
    pub fn fold_dir(&mut self, collapse: bool)
        ensures
            final(self)@ == old(self)@.folded_here(collapse),
    {
        reveal(AppV::folded_here);

        let sel: usize = self.sidebar_sel;
        assert(self@.sidebar_rows.len() == self.sidebar_rows.len());
        if let Some(path) = self.dir_at(sel) {
            if collapse && has_id(&self.collapsed, path.as_str()) {
                let parent = dir_of(path.as_str());
                if !parent.is_empty() {
                    self.set_dir_collapsed(strs::owned(parent), true);
                }
            } else {
                self.set_dir_collapsed(path, collapse);
            }
        } else if let Some(fi) = self.file_at(sel) {
            if collapse {
                if let Some(parent) = self.parent_dir_of_file(fi) {
                    self.set_dir_collapsed(parent, true);
                }
            }
        }
    }

    /// The immediate containing directory of file `fi`, if it lives in one.
    pub fn parent_dir_of_file(&self, fi: usize) -> (r: Option<String>)
        ensures
            strs::opt_view(r) == self@.dir_of_file(fi as nat),
    {
        if fi >= self.changeset.files.len() {
            return None;
        }
        assert(self.changeset.files@[fi as int]@ == self@.files[fi as int]);
        let dir = dir_of(self.changeset.files[fi].display_path());
        if dir.is_empty() {
            None
        } else {
            Some(strs::owned(dir))
        }
    }

    /// Toggle the directory under the cursor open/closed.
    pub fn fold_dir_toggle(&mut self)
        ensures
            final(self)@ == old(self)@.fold_toggled_here(),
    {
        reveal(AppV::fold_toggled_here);

        if let Some(path) = self.dir_at(self.sidebar_sel) {
            self.toggle_dir(path);
        }
    }

    /// Move the sidebar cursor to the next/prev row and act on it. Every tree row (dir, file)
    /// is a valid landing spot, so this is a simple clamped step.
    pub fn move_sidebar(&mut self, down: bool)
        ensures
            final(self)@ == old(self)@.sidebar_moved(down),
    {
        reveal(AppV::sidebar_moved);

        let n: usize = self.sidebar_rows.len();
        assert(self@.sidebar_rows.len() == n);
        if down {
            if self.sidebar_sel >= n || self.sidebar_sel + 1 >= n {
                return ;
            }
            self.sidebar_sel = self.sidebar_sel + 1;
        } else {
            if self.sidebar_sel == 0 || self.sidebar_sel - 1 >= n {
                return ;
            }
            self.sidebar_sel = self.sidebar_sel - 1;
        }
        self.activate_sidebar();
    }

    /// Jump the sidebar cursor to the first/last row.
    pub fn sidebar_edge(&mut self, last: bool)
        ensures
            final(self)@ == old(self)@.sidebar_at_edge(last),
    {
        reveal(AppV::sidebar_at_edge);

        let n: usize = self.sidebar_rows.len();
        assert(self@.sidebar_rows.len() == n);
        if n == 0 {
            return ;
        }
        self.sidebar_sel = if last {
            n - 1
        } else {
            0
        };
        self.activate_sidebar();
    }

    /// Apply the row under the sidebar cursor: switch to the file it names. Directory rows
    /// are just a cursor resting spot during navigation.
    pub fn activate_sidebar(&mut self)
        ensures
            final(self)@ == old(self)@.activated(),
    {
        reveal(AppV::activated);

        if let Some(fi) = self.file_at(self.sidebar_sel) {
            if fi != self.current_file {
                self.set_current_file(fi);
            }
            self.reveal_sidebar();
        }
    }

    /// Scroll the file list independently of the selection.
    pub fn scroll_sidebar(&mut self, delta: isize)
        ensures
            final(self)@ == old(self)@.sidebar_scrolled(delta as int),
    {
        reveal(AppV::sidebar_scrolled);

        let max: usize = self.sidebar_max();
        self.sidebar_scroll = step(self.sidebar_scroll, delta, 0, max);
    }

    /// The row of the file list at terminal row `row`, if there is one.
    fn sidebar_row_at(&self, row: u16) -> (r: Option<usize>)
        ensures
            crate::ui::app::state::index_view(r) == (if self@.sidebar_row_at(row)
                < self@.sidebar_rows.len() {
                Some(self@.sidebar_row_at(row))
            } else {
                None
            }),
    {
        let off: usize = if row > self.sidebar_area.y {
            (row - self.sidebar_area.y) as usize
        } else {
            0
        };
        // Mirror render's clamp so clicks map to the row actually drawn.
        let max: usize = self.sidebar_max();
        let scroll: usize = if self.sidebar_scroll < max {
            self.sidebar_scroll
        } else {
            max
        };
        let n: usize = self.sidebar_rows.len();
        assert(self@.sidebar_rows.len() == n);
        if scroll < n && off < n - scroll {
            Some(scroll + off)
        } else {
            None
        }
    }

    /// A click into the file list at terminal row `row`.
    pub fn click_sidebar(&mut self, row: u16)
        ensures
            final(self)@ == old(self)@.sidebar_clicked(row),
    {
        reveal(AppV::sidebar_clicked);

        if let Some(idx) = self.sidebar_row_at(row) {
            if let Some(path) = self.dir_at(idx) {
                self.focus = Focus::Sidebar;
                self.sidebar_sel = idx;
                self.toggle_dir(path);
            } else if let Some(fi) = self.file_at(idx) {
                self.focus = Focus::Sidebar;
                self.set_current_file(fi);
            }
        }
    }
}

proof fn lemma_without_absent(set: Seq<Seq<char>>, s: Seq<char>, n: nat)
    requires
        !set.contains(s),
        n <= set.len(),
    ensures
        without_among(set, s, n) == set.take(n as int),
    decreases n,
{
    if n == 0 {
        assert(set.take(0) == Seq::<Seq<char>>::empty());
    } else {
        lemma_without_absent(set, s, (n - 1) as nat);
        assert(set.contains(set[n - 1]));
        assert(set.take(n as int) == set.take(n - 1).push(set[n - 1]));
    }
}

proof fn lemma_opened_nothing(collapsed: Seq<Seq<char>>, segs: Seq<Seq<char>>, n: nat)
    requires
        !any_collapsed(collapsed, segs, n),
    ensures
        opened(collapsed, segs, n) == collapsed,
    decreases n,
{
    if n > 0 {
        lemma_opened_nothing(collapsed, segs, (n - 1) as nat);
        lemma_without_absent(collapsed, ancestor(segs, (n - 1) as nat), collapsed.len());
        assert(collapsed.take(collapsed.len() as int) == collapsed);
    }
}

} // verus!
