//! The start and the end of a session, and the clipboard.
use crate::comments::model::{CommentStore, CommentV, ThreadV};
use crate::diff::model::{Changeset, DiffFile, DiffFileV, DiffLineV, HunkV, LineKind};
use crate::strs;
use crate::ui::app::nav;
use crate::ui::app::nav::SIDEBAR_WIDTH;
use crate::ui::app::state::{App, AppV, Focus, Geom, GeomV, HitV, ViewMode};
use crate::ui::render_rows::rows;
use crate::ui::render_rows::rows::build_rows;
use crate::ui::render_rows::split;
use crate::ui::render_rows::split::build_split_rows;
use crate::ui::sidebar;
use crate::ui::sidebar::build_sidebar_rows;
use crate::ui::style;
use crate::ui::style::Rect;
use crate::ui::theme;

use vstd::prelude::*;

verus! {

/// How many of the first `n` lines are of this kind.
pub open spec fn kind_count(lines: Seq<DiffLineV>, kind: LineKind, n: nat) -> nat
    decreases n,
{
    if n == 0 {
        0
    } else {
        kind_count(lines, kind, (n - 1) as nat) + (if lines[n - 1].kind == kind {
            1nat
        } else {
            0nat
        })
    }
}

/// How many lines of the first `n` hunks are of this kind, as far as they can be counted.
pub open spec fn hunk_count(hunks: Seq<HunkV>, kind: LineKind, n: nat) -> usize
    decreases n,
{
    if n == 0 {
        0
    } else {
        let h = hunks[n - 1];
        crate::ui::app::wrap::saturated(
            hunk_count(hunks, kind, (n - 1) as nat) + kind_count(h.lines, kind, h.lines.len()),
        )
    }
}

/// The added and deleted lines of a file.
pub open spec fn stats(f: DiffFileV) -> (usize, usize) {
    (
        hunk_count(f.hunks, LineKind::Addition, f.hunks.len()),
        hunk_count(f.hunks, LineKind::Deletion, f.hunks.len()),
    )
}

fn count_lines(f: &DiffFile, kind: LineKind) -> (r: usize)
    ensures
        r == hunk_count(f@.hunks, kind, f@.hunks.len()),
{
    let mut total: usize = 0;
    let mut i: usize = 0;
    while i < f.hunks.len()
        invariant
            0 <= i <= f.hunks.len(),
            total == hunk_count(f@.hunks, kind, i as nat),
        decreases f.hunks.len() - i,
    {
        let h = &f.hunks[i];
        assert(h@ == f@.hunks[i as int]);
        let mut n: usize = 0;
        let mut j: usize = 0;
        while j < h.lines.len()
            invariant
                0 <= j <= h.lines.len(),
                n <= j,
                n == kind_count(h@.lines, kind, j as nat),
            decreases h.lines.len() - j,
        {
            assert(h.lines@[j as int]@ == h@.lines[j as int]);
            if h.lines[j].kind == kind {
                n += 1;
            }
            j += 1;
        }
        total = crate::ui::app::wrap::sat_add(total, n);
        i += 1;
    }
    total
}

/// Per-file (additions, deletions) counts for the sidebar.
pub fn file_stats(changeset: &Changeset) -> (r: Vec<(usize, usize)>)
    ensures
        r@ == Seq::new(changeset@.len(), |i: int| stats(changeset@[i])),
{
    let mut out: Vec<(usize, usize)> = Vec::new();
    let mut i: usize = 0;
    while i < changeset.files.len()
        invariant
            0 <= i <= changeset.files.len(),
            out.len() == i,
            forall|k: int| 0 <= k < i ==> #[trigger] out@[k] == stats(changeset@[k]),
        decreases changeset.files.len() - i,
    {
        let f = &changeset.files[i];
        assert(f@ == changeset@[i as int]);
        out.push((count_lines(f, LineKind::Addition), count_lines(f, LineKind::Deletion)));
        i += 1;
    }
    assert(out@ =~= Seq::new(changeset@.len(), |i: int| stats(changeset@[i])));
    out
}

/// The digit of base64 for a number below 64.
pub open spec fn digit64(n: int) -> char {
    if n < 26 {
        ('A' as u32 + n) as char
    } else if n < 52 {
        ('a' as u32 + (n - 26)) as char
    } else if n < 62 {
        ('0' as u32 + (n - 52)) as char
    } else if n == 62 {
        '+'
    } else {
        '/'
    }
}

/// The number that a digit of base64 stands for.
pub open spec fn value64(c: char) -> int {
    let n = c as int;
    if 'A' as int <= n <= 'Z' as int {
        n - 'A' as int
    } else if 'a' as int <= n <= 'z' as int {
        n - 'a' as int + 26
    } else if '0' as int <= n <= '9' as int {
        n - '0' as int + 52
    } else if c == '+' {
        62
    } else {
        63
    }
}

/// Up to three bytes as four characters: missing bytes count as 0, and the characters that
/// hold nothing else are `=`.
pub open spec fn group64(b: Seq<u8>) -> Seq<char> {
    let b0 = b[0] as int;
    let b1 = if b.len() > 1 {
        b[1] as int
    } else {
        0
    };
    let b2 = if b.len() > 2 {
        b[2] as int
    } else {
        0
    };
    seq![
        digit64(b0 / 4),
        digit64((b0 % 4) * 16 + b1 / 16),
        if b.len() > 1 {
            digit64((b1 % 16) * 4 + b2 / 64)
        } else {
            '='
        },
        if b.len() > 2 {
            digit64(b2 % 64)
        } else {
            '='
        },
    ]
}

/// Bytes in base64, in groups of three.
pub open spec fn encoded64(b: Seq<u8>) -> Seq<char>
    decreases b.len(),
{
    if b.len() == 0 {
        Seq::empty()
    } else if b.len() <= 3 {
        group64(b)
    } else {
        group64(b.take(3)) + encoded64(b.skip(3))
    }
}

/// The bytes that four characters of base64 hold.
pub open spec fn bytes64(s: Seq<char>) -> Seq<u8> {
    let v0 = value64(s[0]);
    let v1 = value64(s[1]);
    let v2 = value64(s[2]);
    let v3 = value64(s[3]);
    let b0 = (v0 * 4 + v1 / 16) as u8;
    let b1 = ((v1 % 16) * 16 + v2 / 4) as u8;
    let b2 = ((v2 % 4) * 64 + v3) as u8;
    if s[2] == '=' {
        seq![b0]
    } else if s[3] == '=' {
        seq![b0, b1]
    } else {
        seq![b0, b1, b2]
    }
}

/// The bytes that a text in base64 holds.
pub open spec fn decoded64(s: Seq<char>) -> Seq<u8>
    decreases s.len(),
{
    if s.len() < 4 {
        Seq::empty()
    } else {
        bytes64(s.take(4)) + decoded64(s.skip(4))
    }
}

proof fn lemma_digit(n: int)
    requires
        0 <= n < 64,
    ensures
        value64(digit64(n)) == n,
        digit64(n) != '=',
{
}

proof fn lemma_group(b: Seq<u8>)
    requires
        1 <= b.len() <= 3,
    ensures
        group64(b).len() == 4,
        bytes64(group64(b)) == b,
{
    let b0 = b[0] as int;
    let b1 = if b.len() > 1 {
        b[1] as int
    } else {
        0
    };
    let b2 = if b.len() > 2 {
        b[2] as int
    } else {
        0
    };
    lemma_digit(b0 / 4);
    lemma_digit((b0 % 4) * 16 + b1 / 16);
    lemma_digit((b1 % 16) * 4 + b2 / 64);
    lemma_digit(b2 % 64);
    let v1 = (b0 % 4) * 16 + b1 / 16;
    let v2 = (b1 % 16) * 4 + b2 / 64;
    assert(v1 / 16 == b0 % 4);
    assert(v1 % 16 == b1 / 16);
    assert(v2 / 4 == b1 % 16);
    assert(v2 % 4 == b2 / 64);
    assert(bytes64(group64(b)) =~= b);
}

/// What base64 holds is what was written.
pub proof fn law_base64_round_trip(b: Seq<u8>)
    ensures
        decoded64(encoded64(b)) == b,
    decreases b.len(),
{
    if b.len() == 0 {
    } else if b.len() <= 3 {
        lemma_group(b);
        let e = encoded64(b);
        assert(e.take(4) == group64(b));
        assert(decoded64(e.skip(4)) == Seq::<u8>::empty());
        assert(bytes64(e.take(4)) + Seq::<u8>::empty() == b);
    } else {
        let g = b.take(3);
        let rest = b.skip(3);
        lemma_group(g);
        law_base64_round_trip(rest);
        let e = encoded64(b);
        assert(e.take(4) == group64(g));
        assert(e.skip(4) == encoded64(rest));
        assert(g + rest == b);
    }
}

fn digit_of(n: u8) -> (c: char)
    requires
        n < 64,
    ensures
        c == digit64(n as int),
{
    if n < 26 {
        (65 + n) as char
    } else if n < 52 {
        (97 + (n - 26)) as char
    } else if n < 62 {
        (48 + (n - 52)) as char
    } else if n == 62 {
        '+'
    } else {
        '/'
    }
}

fn push_group(out: &mut String, data: &Vec<u8>, i: usize)
    requires
        i < data.len(),
    ensures
        final(out)@ == old(out)@ + group64(
            data@.subrange(
                i as int,
                if i + 3 <= data.len() {
                    i + 3
                } else {
                    data.len() as int
                },
            ),
        ),
{
    let left: usize = data.len() - i;
    let b0: u8 = data[i];
    let b1: u8 = if left > 1 {
        data[i + 1]
    } else {
        0
    };
    let b2: u8 = if left > 2 {
        data[i + 2]
    } else {
        0
    };
    let ghost o = out@;
    out.push(digit_of(b0 / 4));
    out.push(digit_of((b0 % 4) * 16 + b1 / 16));
    out.push(
        if left > 1 {
            digit_of((b1 % 16) * 4 + b2 / 64)
        } else {
            '='
        },
    );
    out.push(
        if left > 2 {
            digit_of(b2 % 64)
        } else {
            '='
        },
    );
    let ghost g = data@.subrange(
        i as int,
        if i + 3 <= data.len() {
            i + 3
        } else {
            data.len() as int
        },
    );
    assert(out@ == o + group64(g));
}

/// Minimal standard base64 for OSC 52 clipboard writes.
pub fn base64(data: &Vec<u8>) -> (r: String)
    ensures
        r@ == encoded64(data@),
{
    let mut out = String::new();
    let n: usize = data.len();
    let mut i: usize = 0;
    assert(data@.skip(0) == data@);
    assert(out@ + encoded64(data@) == encoded64(data@));
    while i < n
        invariant
            n == data.len(),
            i <= n,
            out@ + encoded64(data@.skip(i as int)) == encoded64(data@),
        decreases n - i,
    {
        let ghost before = out@;
        let ghost rest = data@.skip(i as int);
        push_group(&mut out, data, i);
        if n - i <= 3 {
            assert(data@.subrange(i as int, n as int) == rest);
            assert(data@.skip(n as int) == Seq::<u8>::empty());
            assert(out@ + Seq::<char>::empty() == out@);
            i = n;
        } else {
            assert(data@.subrange(i as int, i + 3) == rest.take(3));
            assert(data@.skip(i + 3) == rest.skip(3));
            assert(before + group64(rest.take(3)) + encoded64(rest.skip(3)) == before + (group64(
                rest.take(3),
            ) + encoded64(rest.skip(3))));
            i += 3;
        }
    }
    assert(data@.skip(n as int) == Seq::<u8>::empty());
    assert(out@ + Seq::<char>::empty() == out@);
    out
}

/// The ids of the first `n` comments.
pub open spec fn ids_among(comments: Seq<CommentV>, n: nat) -> Seq<Seq<char>>
    decreases n,
{
    if n == 0 {
        Seq::empty()
    } else {
        ids_among(comments, (n - 1) as nat).push(comments[n - 1].id)
    }
}

/// The ids of all comments of the first `n` threads.
pub open spec fn all_ids(threads: Seq<ThreadV>, n: nat) -> Seq<Seq<char>>
    decreases n,
{
    if n == 0 {
        Seq::empty()
    } else {
        let t = threads[n - 1];
        all_ids(threads, (n - 1) as nat) + ids_among(t.comments, t.comments.len())
    }
}

fn comment_ids(store: &CommentStore) -> (r: Vec<String>)
    ensures
        strs::views(r@) == all_ids(store@, store@.len()),
{
    broadcast use strs::lemma_views_push;

    let mut out: Vec<String> = Vec::new();
    let mut i: usize = 0;
    assert(strs::views(out@) == Seq::<Seq<char>>::empty());
    while i < store.threads.len()
        invariant
            0 <= i <= store.threads.len(),
            strs::views(out@) == all_ids(store@, i as nat),
        decreases store.threads.len() - i,
    {
        let t = &store.threads[i];
        assert(t@ == store@[i as int]);
        let ghost before = strs::views(out@);
        let mut j: usize = 0;
        assert(before + Seq::<Seq<char>>::empty() == before);
        while j < t.comments.len()
            invariant
                0 <= j <= t.comments.len(),
                strs::views(out@) == before + ids_among(t@.comments, j as nat),
            decreases t.comments.len() - j,
        {
            assert(t.comments@[j as int]@ == t@.comments[j as int]);
            let ghost o = out@;
            out.push(t.comments[j].id.clone());
            assert(strs::views(out@) == strs::views(o).push(t@.comments[j as int].id));
            assert(before + ids_among(t@.comments, j as nat).push(t@.comments[j as int].id) == (
            before + ids_among(t@.comments, j as nat)).push(t@.comments[j as int].id));
            j += 1;
        }
        i += 1;
    }
    out
}

/// The first row that is one, from file `i` on.
pub open spec fn first_shown(map: Seq<usize>, i: nat) -> nat
    decreases map.len() - i,
{
    if i >= map.len() {
        0
    } else if map[i as int] != usize::MAX {
        map[i as int] as nat
    } else {
        first_shown(map, i + 1)
    }
}

fn first_row(map: &Vec<usize>) -> (r: usize)
    ensures
        r == first_shown(map@, 0),
{
    let mut i: usize = 0;
    while i < map.len()
        invariant
            0 <= i <= map.len(),
            first_shown(map@, i as nat) == first_shown(map@, 0),
        decreases map.len() - i,
    {
        if map[i] != usize::MAX {
            return map[i];
        }
        i += 1;
    }
    0
}

/// The state at the start, before the rows are looked at: split view, all directories open,
/// the file list focused, soft-wrap on.
pub open spec fn blank_state(files: Seq<DiffFileV>, threads: Seq<ThreadV>) -> AppV {
    let tree = sidebar::sidebar_view(files, Seq::empty());
    let map = sidebar::row_map(tree, files.len());
    AppV {
        files,
        rows: rows::rows_of(files, threads, 0, None, None),
        split_rows: split::rows_of(files, threads, 0, None, None),
        threads,
        base_ids: all_ids(threads, threads.len()),
        view: ViewMode::Split,
        selected: 0,
        scroll: 0,
        height: 1,
        status: Seq::empty(),
        needs_clear: false,
        show_sidebar: true,
        sidebar_width: SIDEBAR_WIDTH,
        sidebar_scroll: 0,
        sidebar_sel: first_shown(map, 0),
        collapsed: Seq::empty(),
        comment_wrap: 0,
        resizing: false,
        focus: Focus::Sidebar,
        current_file: 0,
        sidebar_rows: tree,
        file_to_sbrow: map,
        sel_anchor: None,
        pending_copy: None,
        file_stats: Seq::new(files.len(), |i: int| stats(files[i])),
        diff_area: style::no_rect(),
        sidebar_area: style::no_rect(),
        diff_sb: style::no_rect(),
        sidebar_sb: style::no_rect(),
        sb_drag: None,
        button_hits: Seq::empty(),
        file_span: (0, 0),
        file_spans: Seq::empty(),
        composer: None,
        visual: false,
        wrap: true,
        geom: GeomV {
            heights: Seq::empty(),
            offsets: Seq::empty(),
            width: usize::MAX,
            dirty: true,
        },
        unified_dirty: false,
        split_dirty: false,
        theme: theme::fallback_theme(),
        quit: false,
    }
}

impl AppV {
    /// With the cursor at the first stop.
    #[verifier::opaque]
    pub open spec fn at_first(self) -> AppV {
        AppV { selected: nav::or_value(self.first_stop(), 0), ..self }
    }
}

/// The state at the start.
pub open spec fn initial(files: Seq<DiffFileV>, threads: Seq<ThreadV>) -> AppV {
    blank_state(files, threads).resynced().at_first()
}

impl App {
    /// Consume the app and return the final in-memory review store, so the caller can diff it
    /// against the immutable base to produce the action log.
    pub fn into_comments(self) -> (r: CommentStore)
        ensures
            r@ == self@.threads,
    {
        self.comments
    }

    fn blank(changeset: Changeset, comments: CommentStore) -> (r: App)
        ensures
            r@ == blank_state(changeset@, comments@),
    {
        // Comment threads always render expanded inline.
        let rows = build_rows(&changeset, &comments, 0, None);
        let split_rows = build_split_rows(&changeset, &comments, 0, None);
        // Every loaded comment id came from the input and is protected from deletion.
        let base_comment_ids = comment_ids(&comments);
        let stats = file_stats(&changeset);
        let collapsed: Vec<String> = Vec::new();
        assert(strs::views(collapsed@) == Seq::<Seq<char>>::empty());
        let (sidebar_rows, file_to_sbrow) = build_sidebar_rows(&changeset, &collapsed);
        let sidebar_sel: usize = first_row(&file_to_sbrow);
        let r = App {
            changeset,
            rows,
            split_rows,
            comments,
            base_comment_ids,
            view: ViewMode::Split,
            selected: 0,
            scroll: 0,
            height: 1,
            status: String::new(),
            needs_clear: false,
            show_sidebar: true,
            sidebar_width: SIDEBAR_WIDTH,
            sidebar_scroll: 0,
            sidebar_sel,
            collapsed,
            comment_wrap: 0,
            resizing: false,
            focus: Focus::Sidebar,
            current_file: 0,
            sidebar_rows,
            file_to_sbrow,
            sel_anchor: None,
            pending_copy: None,
            file_stats: stats,
            diff_area: Rect::default(),
            sidebar_area: Rect::default(),
            diff_sb: Rect::default(),
            sidebar_sb: Rect::default(),
            sb_drag: None,
            button_hits: Vec::new(),
            file_span: (0, 0),
            file_spans: Vec::new(),
            composer: None,
            visual: false,
            wrap: true,
            geom: Geom {
                heights: Vec::new(),
                offsets: Vec::new(),
                width: usize::MAX,
                dirty: true,
            },
            unified_dirty: false,
            split_dirty: false,
            theme: theme::fallback(),
            quit: false,
        };
        assert(r@.button_hits == Seq::<HitV>::empty());
        assert(r@.file_spans == Seq::<(nat, nat)>::empty());
        assert(r@.file_stats == blank_state(changeset@, comments@).file_stats);
        assert(r@.geom == blank_state(changeset@, comments@).geom);
        r
    }

    fn select_first(&mut self)
        ensures
            final(self)@ == old(self)@.at_first(),
    {
        reveal(AppV::at_first);

        self.selected = match self.first_selectable() {
            Some(i) => i,
            None => 0,
        };
    }

    /// Construct with a pre-loaded comment store (e.g. from a sidecar JSON).
    pub fn with_comments(changeset: Changeset, comments: CommentStore) -> (r: App)
        ensures
            r@ == initial(changeset@, comments@),
    {
        let mut app = App::blank(changeset, comments);
        app.resync_file_spans();
        app.select_first();
        app
    }
}

} // verus!
