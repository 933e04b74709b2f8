//! What the rows list: the whole diff in its order, and nothing besides.
use crate::comments::model::ThreadV;
use crate::diff::model::{DiffFileV, DiffLineV, HunkV, LineKind, Side};
use crate::str_laws;
use crate::strs;
use crate::ui::render_rows::rows;
use crate::ui::render_rows::rows::{RowKindV, RowV};
use crate::ui::render_rows::split;
use crate::ui::render_rows::split::{CellV, Open, SplitKindV, SplitRowV};
use crate::ui::render_rows::text;
use crate::ui::render_rows::threads;
use crate::ui::render_rows::threads::{BuildV, ComposerV};
use vstd::prelude::*;

verus! {

/// One thing of a diff: the path of a file, the header of a hunk, or a line with its kind, its
/// numbers on the old and the new side as far as they are shown, and its text.
pub enum Entry {
    Path(Seq<char>),
    Head(Seq<char>),
    Line(LineKind, Option<u32>, Option<u32>, Seq<char>),
}

/// What of a line is listed: both its numbers and its sign, or what one side shows.
pub enum Part {
    Both,
    Of(Side),
}

/// The entry of a line, where that part of the diff has the line.
pub open spec fn line_entry(p: Part, l: DiffLineV) -> Seq<Entry> {
    let t = text::sanitized(l.text);
    match p {
        Part::Both => {
            let mark = if l.kind == LineKind::Addition {
                '+'
            } else if l.kind == LineKind::Deletion {
                '-'
            } else {
                ' '
            };
            seq![Entry::Line(l.kind, l.old_line, l.new_line, seq![mark] + t)]
        },
        Part::Of(Side::Old) => if l.kind == LineKind::Addition {
            Seq::empty()
        } else {
            seq![Entry::Line(l.kind, l.old_line, None, t)]
        },
        Part::Of(Side::New) => if l.kind == LineKind::Deletion {
            Seq::empty()
        } else {
            seq![Entry::Line(l.kind, None, l.new_line, t)]
        },
    }
}

/// The entries of the first `n` lines of a hunk.
pub open spec fn line_entries(p: Part, lines: Seq<DiffLineV>, n: nat) -> Seq<Entry>
    decreases n,
{
    if n == 0 {
        Seq::empty()
    } else {
        line_entries(p, lines, (n - 1) as nat) + line_entry(p, lines[n - 1])
    }
}

/// The entries of the first `n` hunks of a file.
pub open spec fn hunk_entries(p: Part, hunks: Seq<HunkV>, n: nat) -> Seq<Entry>
    decreases n,
{
    if n == 0 {
        Seq::empty()
    } else {
        let h = hunks[n - 1];
        hunk_entries(p, hunks, (n - 1) as nat) + seq![Entry::Head(rows::header_text(h))]
            + line_entries(p, h.lines, h.lines.len())
    }
}

/// The entries of a file.
pub open spec fn entries_of_file(p: Part, f: DiffFileV) -> Seq<Entry> {
    seq![Entry::Path(f.display_path())] + (if f.is_binary {
        seq![Entry::Head("Binary file"@)]
    } else {
        hunk_entries(p, f.hunks, f.hunks.len())
    })
}

/// Entries with the file that they belong to.
pub open spec fn under(f: nat, s: Seq<Entry>) -> Seq<(nat, Entry)> {
    Seq::new(s.len(), |i: int| (f, s[i]))
}

/// The entries of the first `n` files, in order.
pub open spec fn entries_of(p: Part, files: Seq<DiffFileV>, n: nat) -> Seq<(nat, Entry)>
    decreases n,
{
    if n == 0 {
        Seq::empty()
    } else {
        entries_of(p, files, (n - 1) as nat) + under(
            (n - 1) as nat,
            entries_of_file(p, files[n - 1]),
        )
    }
}

/// What a row lists: nothing, where it is one of a box.
pub open spec fn listed(r: RowV) -> Seq<(nat, Entry)> {
    match r.kind {
        RowKindV::FileHeader => seq![(r.file_idx, Entry::Path(r.text))],
        RowKindV::HunkHeader => seq![(r.file_idx, Entry::Head(r.text))],
        RowKindV::Line { kind, old_line, new_line } => seq![
            (r.file_idx, Entry::Line(kind, old_line, new_line, r.text)),
        ],
        _ => Seq::empty(),
    }
}

/// What rows list.
pub open spec fn listing(s: Seq<RowV>) -> Seq<(nat, Entry)>
    decreases s.len(),
{
    if s.len() == 0 {
        Seq::empty()
    } else {
        listing(s.drop_last()) + listed(s.last())
    }
}

/// The entry of a cell.
pub open spec fn cell_entry(side: Side, c: Option<CellV>) -> Seq<Entry> {
    match c {
        Some(x) => match side {
            Side::Old => seq![Entry::Line(x.kind, x.line, None, x.text)],
            Side::New => seq![Entry::Line(x.kind, None, x.line, x.text)],
        },
        None => Seq::empty(),
    }
}

/// What a split row lists in the column of a side.
pub open spec fn listed_in(side: Side, r: SplitRowV) -> Seq<(nat, Entry)> {
    match r.kind {
        SplitKindV::FileHeader => seq![(r.file_idx, Entry::Path(r.text))],
        SplitKindV::HunkHeader => seq![(r.file_idx, Entry::Head(r.text))],
        SplitKindV::Pair { left, right } => under(
            r.file_idx,
            match side {
                Side::Old => cell_entry(side, left),
                Side::New => cell_entry(side, right),
            },
        ),
        _ => Seq::empty(),
    }
}

/// What split rows list in the column of a side.
pub open spec fn listing_in(side: Side, s: Seq<SplitRowV>) -> Seq<(nat, Entry)>
    decreases s.len(),
{
    if s.len() == 0 {
        Seq::empty()
    } else {
        listing_in(side, s.drop_last()) + listed_in(side, s.last())
    }
}

proof fn lemma_add(a: Seq<RowV>, b: Seq<RowV>)
    ensures
        listing(a + b) == listing(a) + listing(b),
    decreases b.len(),
{
    if b.len() == 0 {
        assert(a + b == a);
    } else {
        lemma_add(a, b.drop_last());
        assert((a + b).drop_last() == a + b.drop_last());
        assert((a + b).last() == b.last());
    }
}

proof fn lemma_one(r: RowV)
    ensures
        listing(seq![r]) == listed(r),
{
    assert(seq![r].drop_last() == Seq::<RowV>::empty());
    assert(listing(seq![r].drop_last()) == Seq::<(nat, Entry)>::empty());
}

proof fn lemma_none(s: Seq<RowV>)
    requires
        forall|i: int| 0 <= i < s.len() ==> listed(#[trigger] s[i]).len() == 0,
    ensures
        listing(s) == Seq::<(nat, Entry)>::empty(),
    decreases s.len(),
{
    if s.len() > 0 {
        let d = s.drop_last();
        assert forall|i: int| 0 <= i < d.len() implies listed(#[trigger] d[i]).len() == 0 by {
            assert(d[i] == s[i]);
        }
        lemma_none(d);
        assert(listed(s[s.len() - 1]).len() == 0);
    }
}

proof fn lemma_under_add(f: nat, a: Seq<Entry>, b: Seq<Entry>)
    ensures
        under(f, a + b) == under(f, a) + under(f, b),
{
}

proof fn lemma_line(
    b: BuildV,
    fi: nat,
    path: Seq<char>,
    l: DiffLineV,
    ids: Seq<Seq<char>>,
    composed: bool,
)
    ensures
        listing(rows::line_out(b, fi, path, l, ids, composed).rows) == under(
            fi,
            line_entry(Part::Both, l),
        ),
{
    let row = seq![rows::code_row(fi, l)];
    lemma_one(rows::code_row(fi, l));
    assert(listing(row) == under(fi, line_entry(Part::Both, l)));
    if let Some((side, n)) = rows::line_anchor(l.kind, l.old_line, l.new_line) {
        let (inj, out) = threads::inject(b, path, Some(seq![(side, n)]), ids);
        let ir = rows::injected_rows(fi, inj);
        let br = rows::box_rows(
            fi,
            threads::new_thread_box(b.composer, composed, fi, side, n, b.width),
        );
        lemma_none(ir);
        lemma_none(br);
        lemma_add(row, ir);
        lemma_add(row + ir, br);
        assert(listing(row + ir + br) == listing(row));
    }
}

proof fn lemma_lines(
    b: BuildV,
    fi: nat,
    path: Seq<char>,
    lines: Seq<DiffLineV>,
    n: nat,
    ids: Seq<Seq<char>>,
    composed: bool,
)
    ensures
        listing(rows::lines_out(b, fi, path, lines, n, ids, composed).rows) == under(
            fi,
            line_entries(Part::Both, lines, n),
        ),
    decreases n,
{
    if n > 0 {
        lemma_lines(b, fi, path, lines, (n - 1) as nat, ids, composed);
        let x = rows::lines_out(b, fi, path, lines, (n - 1) as nat, ids, composed);
        let l = lines[n - 1];
        lemma_line(b, fi, path, l, x.ids, x.composed);
        lemma_add(x.rows, rows::line_out(b, fi, path, l, x.ids, x.composed).rows);
        lemma_under_add(
            fi,
            line_entries(Part::Both, lines, (n - 1) as nat),
            line_entry(Part::Both, l),
        );
    }
}

proof fn lemma_hunks(
    b: BuildV,
    fi: nat,
    path: Seq<char>,
    hunks: Seq<HunkV>,
    n: nat,
    ids: Seq<Seq<char>>,
    composed: bool,
)
    ensures
        listing(rows::hunks_out(b, fi, path, hunks, n, ids, composed).rows) == under(
            fi,
            hunk_entries(Part::Both, hunks, n),
        ),
    decreases n,
{
    if n > 0 {
        lemma_hunks(b, fi, path, hunks, (n - 1) as nat, ids, composed);
        let x = rows::hunks_out(b, fi, path, hunks, (n - 1) as nat, ids, composed);
        let h = hunks[n - 1];
        let head = rows::plain_row(fi, RowKindV::HunkHeader, rows::header_text(h));
        lemma_lines(b, fi, path, h.lines, h.lines.len(), x.ids, x.composed);
        let o = rows::lines_out(b, fi, path, h.lines, h.lines.len(), x.ids, x.composed);
        lemma_one(head);
        lemma_add(x.rows, seq![head]);
        assert(x.rows + seq![head] == x.rows.push(head));
        lemma_add(x.rows.push(head), o.rows);
        let e = hunk_entries(Part::Both, hunks, (n - 1) as nat);
        let m = seq![Entry::Head(rows::header_text(h))];
        lemma_under_add(fi, e, m);
        lemma_under_add(fi, e + m, line_entries(Part::Both, h.lines, h.lines.len()));
        assert(under(fi, m) == listed(head));
    }
}

proof fn lemma_file(b: BuildV, fi: nat, f: DiffFileV, ids: Seq<Seq<char>>, composed: bool)
    ensures
        listing(rows::file_out(b, fi, f, ids, composed).rows) == under(
            fi,
            entries_of_file(Part::Both, f),
        ),
{
    let path = f.display_path();
    let head = rows::plain_row(fi, RowKindV::FileHeader, path);
    let o = rows::body_out(b, fi, f, ids, composed);
    let (inj, out) = threads::inject(b, path, None, o.ids);
    let ir = rows::injected_rows(fi, inj);
    let e = if f.is_binary {
        seq![Entry::Head("Binary file"@)]
    } else {
        hunk_entries(Part::Both, f.hunks, f.hunks.len())
    };
    if f.is_binary {
        lemma_one(rows::plain_row(fi, RowKindV::HunkHeader, "Binary file"@));
        assert(listing(o.rows) == under(fi, e));
    } else {
        lemma_hunks(b, fi, path, f.hunks, f.hunks.len(), ids, composed);
    }
    lemma_one(head);
    lemma_none(ir);
    lemma_add(seq![head], o.rows);
    lemma_add(seq![head] + o.rows, ir);
    lemma_under_add(fi, seq![Entry::Path(path)], e);
    assert(under(fi, seq![Entry::Path(path)]) == listed(head));
    assert(listing(seq![head] + o.rows + ir) == listing(seq![head] + o.rows));
}

proof fn lemma_files(b: BuildV, files: Seq<DiffFileV>, n: nat)
    ensures
        listing(rows::files_out(b, files, None, n).rows) == entries_of(Part::Both, files, n),
    decreases n,
{
    if n > 0 {
        lemma_files(b, files, (n - 1) as nat);
        let x = rows::files_out(b, files, None, (n - 1) as nat);
        lemma_file(b, (n - 1) as nat, files[n - 1], x.ids, x.composed);
        lemma_add(
            x.rows,
            rows::file_out(b, (n - 1) as nat, files[n - 1], x.ids, x.composed).rows,
        );
    }
}

/// The unified rows list the changeset: every file with its path, every hunk with its header,
/// and every line with its kind, its numbers, its sign and its text, in order, each once and
/// nothing besides, whatever threads and composer there are.
pub proof fn law_rows_list_the_diff(
    files: Seq<DiffFileV>,
    t: Seq<ThreadV>,
    width: nat,
    composer: Option<ComposerV>,
)
    ensures
        listing(rows::rows_of(files, t, width, composer, None)) == entries_of(
            Part::Both,
            files,
            files.len(),
        ),
{
    lemma_files(rows::build_view(files, t, width, composer, None), files, files.len());
}

proof fn lemma_split_add(s: Side, a: Seq<SplitRowV>, b: Seq<SplitRowV>)
    ensures
        listing_in(s, a + b) == listing_in(s, a) + listing_in(s, b),
    decreases b.len(),
{
    if b.len() == 0 {
        assert(a + b == a);
    } else {
        lemma_split_add(s, a, b.drop_last());
        assert((a + b).drop_last() == a + b.drop_last());
        assert((a + b).last() == b.last());
    }
}

proof fn lemma_split_one(s: Side, r: SplitRowV)
    ensures
        listing_in(s, seq![r]) == listed_in(s, r),
{
    assert(seq![r].drop_last() == Seq::<SplitRowV>::empty());
    assert(listing_in(s, seq![r].drop_last()) == Seq::<(nat, Entry)>::empty());
}

proof fn lemma_split_none(s: Side, x: Seq<SplitRowV>)
    requires
        forall|i: int| 0 <= i < x.len() ==> listed_in(s, #[trigger] x[i]).len() == 0,
    ensures
        listing_in(s, x) == Seq::<(nat, Entry)>::empty(),
    decreases x.len(),
{
    if x.len() > 0 {
        let d = x.drop_last();
        assert forall|i: int| 0 <= i < d.len() implies listed_in(s, #[trigger] d[i]).len()
            == 0 by {
            assert(d[i] == x[i]);
        }
        lemma_split_none(s, d);
        assert(listed_in(s, x[x.len() - 1]).len() == 0);
    }
}

proof fn lemma_boxes(
    s: Side,
    b: BuildV,
    fi: nat,
    anchors: Seq<(Side, u32)>,
    n: nat,
    composed: bool,
)
    ensures
        listing_in(s, split::boxes(b, fi, anchors, n, composed).0) == Seq::<(nat, Entry)>::empty(),
    decreases n,
{
    if n > 0 {
        lemma_boxes(s, b, fi, anchors, (n - 1) as nat, composed);
        let (r, c) = split::boxes(b, fi, anchors, (n - 1) as nat, composed);
        let (side, l) = anchors[n - 1];
        let br = split::box_rows(
            fi,
            side,
            threads::new_thread_box(b.composer, c, fi, side, l, b.width),
        );
        lemma_split_none(s, br);
        lemma_split_add(s, r, br);
    }
}

/// The cell of a pair on a side.
spec fn cell_of(s: Side, left: Option<CellV>, right: Option<CellV>) -> Option<CellV> {
    match s {
        Side::Old => left,
        Side::New => right,
    }
}

proof fn lemma_pair(
    s: Side,
    b: BuildV,
    fi: nat,
    path: Seq<char>,
    left: Option<CellV>,
    right: Option<CellV>,
    ids: Seq<Seq<char>>,
    composed: bool,
)
    ensures
        listing_in(s, split::pair_out(b, fi, path, left, right, ids, composed).rows) == under(
            fi,
            cell_entry(s, cell_of(s, left, right)),
        ),
{
    let anchors = split::pair_anchors(left, right);
    let (inj, out) = threads::inject(b, path, Some(anchors), ids);
    let (br, c) = split::boxes(b, fi, anchors, anchors.len(), composed);
    let r = split::plain_row(fi, SplitKindV::Pair { left, right }, Seq::empty());
    let ir = split::injected_rows(fi, inj);
    lemma_split_one(s, r);
    lemma_split_none(s, ir);
    lemma_boxes(s, b, fi, anchors, anchors.len(), composed);
    lemma_split_add(s, seq![r], ir);
    lemma_split_add(s, seq![r] + ir, br);
    assert(listing_in(s, seq![r] + ir + br) == listing_in(s, seq![r]));
}

/// The entries of the first `n` cells of a run.
spec fn run_entries(s: Side, cells: Seq<CellV>, n: nat) -> Seq<Entry>
    decreases n,
{
    if n == 0 {
        Seq::empty()
    } else {
        run_entries(s, cells, (n - 1) as nat) + cell_entry(s, split::cell_at(cells, n - 1))
    }
}

proof fn lemma_run_ends(s: Side, cells: Seq<CellV>, n: nat)
    requires
        n >= cells.len(),
    ensures
        run_entries(s, cells, n) == run_entries(s, cells, cells.len()),
    decreases n,
{
    if n > cells.len() {
        lemma_run_ends(s, cells, (n - 1) as nat);
    }
}

proof fn lemma_run_push(s: Side, cells: Seq<CellV>, c: CellV, n: nat)
    requires
        n <= cells.len(),
    ensures
        run_entries(s, cells.push(c), n) == run_entries(s, cells, n),
    decreases n,
{
    if n > 0 {
        lemma_run_push(s, cells, c, (n - 1) as nat);
    }
}

/// The entries of an open run on a side.
spec fn pending(s: Side, o: Open) -> Seq<Entry> {
    match s {
        Side::Old => run_entries(s, o.dels, o.dels.len()),
        Side::New => run_entries(s, o.adds, o.adds.len()),
    }
}

proof fn lemma_zip(
    s: Side,
    b: BuildV,
    fi: nat,
    path: Seq<char>,
    dels: Seq<CellV>,
    adds: Seq<CellV>,
    n: nat,
    ids: Seq<Seq<char>>,
    composed: bool,
)
    ensures
        listing_in(s, split::zip_out(b, fi, path, dels, adds, n, ids, composed).rows) == under(
            fi,
            run_entries(
                s,
                match s {
                    Side::Old => dels,
                    Side::New => adds,
                },
                n,
            ),
        ),
    decreases n,
{
    if n > 0 {
        let m = (n - 1) as nat;
        lemma_zip(s, b, fi, path, dels, adds, m, ids, composed);
        let x = split::zip_out(b, fi, path, dels, adds, m, ids, composed);
        let l = split::cell_at(dels, n - 1);
        let r = split::cell_at(adds, n - 1);
        lemma_pair(s, b, fi, path, l, r, x.ids, x.composed);
        lemma_split_add(
            s,
            x.rows,
            split::pair_out(b, fi, path, l, r, x.ids, x.composed).rows,
        );
        let cells = match s {
            Side::Old => dels,
            Side::New => adds,
        };
        lemma_under_add(fi, run_entries(s, cells, m), cell_entry(s, cell_of(s, l, r)));
    }
}

proof fn lemma_flushed(s: Side, b: BuildV, fi: nat, path: Seq<char>, o: Open)
    ensures
        listing_in(s, split::flushed(b, fi, path, o).rows) == listing_in(s, o.out.rows) + under(
            fi,
            pending(s, o),
        ),
{
    let n = split::zip_len(o.dels, o.adds);
    lemma_zip(s, b, fi, path, o.dels, o.adds, n, o.out.ids, o.out.composed);
    lemma_run_ends(
        s,
        match s {
            Side::Old => o.dels,
            Side::New => o.adds,
        },
        n,
    );
    lemma_split_add(
        s,
        o.out.rows,
        split::zip_out(b, fi, path, o.dels, o.adds, n, o.out.ids, o.out.composed).rows,
    );
}

proof fn lemma_open(
    s: Side,
    b: BuildV,
    fi: nat,
    path: Seq<char>,
    lines: Seq<DiffLineV>,
    n: nat,
    ids: Seq<Seq<char>>,
    composed: bool,
)
    ensures
        ({
            let o = split::lines_open(b, fi, path, lines, n, ids, composed);
            listing_in(s, o.out.rows) + under(fi, pending(s, o)) == under(
                fi,
                line_entries(Part::Of(s), lines, n),
            )
        }),
    decreases n,
{
    if n > 0 {
        let m = (n - 1) as nat;
        lemma_open(s, b, fi, path, lines, m, ids, composed);
        let o = split::lines_open(b, fi, path, lines, m, ids, composed);
        let l = lines[n - 1];
        let e = line_entries(Part::Of(s), lines, m);
        let x = line_entry(Part::Of(s), l);
        lemma_under_add(fi, e, x);
        let done = listing_in(s, o.out.rows);
        match l.kind {
            LineKind::Context => {
                let f = split::flushed(b, fi, path, o);
                let left = Some(split::context_cell(l));
                let right = Some(split::line_cell(l));
                lemma_flushed(s, b, fi, path, o);
                lemma_pair(s, b, fi, path, left, right, f.ids, f.composed);
                lemma_split_add(
                    s,
                    f.rows,
                    split::pair_out(b, fi, path, left, right, f.ids, f.composed).rows,
                );
                assert(cell_entry(s, cell_of(s, left, right)) == x);
                assert(under(fi, Seq::<Entry>::empty()) == Seq::<(nat, Entry)>::empty());
            },
            _ => {
                let c = split::line_cell(l);
                let cells = match s {
                    Side::Old => o.dels,
                    Side::New => o.adds,
                };
                let own = (s == Side::Old) == (l.kind == LineKind::Deletion);
                if own {
                    lemma_run_push(s, cells, c, cells.len());
                    assert(cells.push(c)[cells.len() as int] == c);
                    assert(x == cell_entry(s, Some(c)));
                    lemma_under_add(fi, pending(s, o), x);
                    assert(done + (under(fi, pending(s, o)) + under(fi, x)) == done + under(
                        fi,
                        pending(s, o),
                    ) + under(fi, x));
                } else {
                    assert(x == Seq::<Entry>::empty());
                    assert(under(fi, e) + under(fi, x) == under(fi, e));
                }
            },
        }
    } else {
        assert(listing_in(s, Seq::<SplitRowV>::empty()) == Seq::<(nat, Entry)>::empty());
    }
}

proof fn lemma_split_hunks(
    s: Side,
    b: BuildV,
    fi: nat,
    path: Seq<char>,
    hunks: Seq<HunkV>,
    n: nat,
    ids: Seq<Seq<char>>,
    composed: bool,
)
    ensures
        listing_in(s, split::hunks_out(b, fi, path, hunks, n, ids, composed).rows) == under(
            fi,
            hunk_entries(Part::Of(s), hunks, n),
        ),
    decreases n,
{
    if n > 0 {
        lemma_split_hunks(s, b, fi, path, hunks, (n - 1) as nat, ids, composed);
        let x = split::hunks_out(b, fi, path, hunks, (n - 1) as nat, ids, composed);
        let h = hunks[n - 1];
        let head = split::plain_row(fi, SplitKindV::HunkHeader, rows::header_text(h));
        lemma_open(s, b, fi, path, h.lines, h.lines.len(), x.ids, x.composed);
        let o = split::lines_open(b, fi, path, h.lines, h.lines.len(), x.ids, x.composed);
        lemma_flushed(s, b, fi, path, o);
        lemma_split_one(s, head);
        lemma_split_add(s, x.rows, seq![head]);
        assert(x.rows + seq![head] == x.rows.push(head));
        lemma_split_add(s, x.rows.push(head), split::flushed(b, fi, path, o).rows);
        let e = hunk_entries(Part::Of(s), hunks, (n - 1) as nat);
        let m = seq![Entry::Head(rows::header_text(h))];
        lemma_under_add(fi, e, m);
        lemma_under_add(fi, e + m, line_entries(Part::Of(s), h.lines, h.lines.len()));
        assert(under(fi, m) == listed_in(s, head));
    }
}

proof fn lemma_split_file(
    s: Side,
    b: BuildV,
    fi: nat,
    f: DiffFileV,
    ids: Seq<Seq<char>>,
    composed: bool,
)
    ensures
        listing_in(s, split::file_out(b, fi, f, ids, composed).rows) == under(
            fi,
            entries_of_file(Part::Of(s), f),
        ),
{
    let path = f.display_path();
    let head = split::plain_row(fi, SplitKindV::FileHeader, path);
    let o = split::body_out(b, fi, f, ids, composed);
    let (inj, out) = threads::inject(b, path, None, o.ids);
    let ir = split::injected_rows(fi, inj);
    let e = if f.is_binary {
        seq![Entry::Head("Binary file"@)]
    } else {
        hunk_entries(Part::Of(s), f.hunks, f.hunks.len())
    };
    if f.is_binary {
        lemma_split_one(s, split::plain_row(fi, SplitKindV::HunkHeader, "Binary file"@));
        assert(listing_in(s, o.rows) == under(fi, e));
    } else {
        lemma_split_hunks(s, b, fi, path, f.hunks, f.hunks.len(), ids, composed);
    }
    lemma_split_one(s, head);
    lemma_split_none(s, ir);
    lemma_split_add(s, seq![head], o.rows);
    lemma_split_add(s, seq![head] + o.rows, ir);
    lemma_under_add(fi, seq![Entry::Path(path)], e);
    assert(under(fi, seq![Entry::Path(path)]) == listed_in(s, head));
    assert(listing_in(s, seq![head] + o.rows + ir) == listing_in(s, seq![head] + o.rows));
}

proof fn lemma_split_files(s: Side, b: BuildV, files: Seq<DiffFileV>, n: nat)
    ensures
        listing_in(s, split::files_out(b, files, None, n).rows) == entries_of(
            Part::Of(s),
            files,
            n,
        ),
    decreases n,
{
    if n > 0 {
        lemma_split_files(s, b, files, (n - 1) as nat);
        let x = split::files_out(b, files, None, (n - 1) as nat);
        lemma_split_file(s, b, (n - 1) as nat, files[n - 1], x.ids, x.composed);
        lemma_split_add(
            s,
            x.rows,
            split::file_out(b, (n - 1) as nat, files[n - 1], x.ids, x.composed).rows,
        );
    }
}

/// Side by side, the left column lists the old side and the right column the new one: every
/// line that the side has, with its kind, its number there and its text, in order, each once
/// and nothing besides, under the same headers.
pub proof fn law_columns_list_their_side(
    files: Seq<DiffFileV>,
    t: Seq<ThreadV>,
    width: nat,
    composer: Option<ComposerV>,
    side: Side,
)
    ensures
        listing_in(side, split::rows_of(files, t, width, composer, None)) == entries_of(
            Part::Of(side),
            files,
            files.len(),
        ),
{
    lemma_split_files(side, rows::build_view(files, t, width, composer, None), files, files.len());
}

/// The header of a hunk says where it starts on either side and how many lines it has there, in
/// digits, and behind that the heading, where there is one.
pub proof fn law_headers_say_the_ranges(h: HunkV)
    ensures
        exists|a: Seq<char>, b: Seq<char>, c: Seq<char>, d: Seq<char>|
            {
                &&& str_laws::value(a) == h.old_start && str_laws::value(b) == h.old_count
                &&& str_laws::value(c) == h.new_start && str_laws::value(d) == h.new_count
                &&& rows::header_text(h) == #[trigger] ranges(a, b, c, d) + (match h.section {
                    Some(s) => seq![' '] + s,
                    None => Seq::empty(),
                })
            },
{
    reveal_strlit("@@ -");
    reveal_strlit(",");
    reveal_strlit(" +");
    reveal_strlit(" @@");
    reveal_strlit(" ");
    let a = strs::dec(h.old_start as nat);
    let b = strs::dec(h.old_count as nat);
    let c = strs::dec(h.new_start as nat);
    let d = strs::dec(h.new_count as nat);
    str_laws::law_numbers_are_written_in_digits(h.old_start as nat);
    str_laws::law_numbers_are_written_in_digits(h.old_count as nat);
    str_laws::law_numbers_are_written_in_digits(h.new_start as nat);
    str_laws::law_numbers_are_written_in_digits(h.new_count as nat);
    assert("@@ -"@ == seq!['@', '@', ' ', '-']);
    assert(","@ == seq![',']);
    assert(" +"@ == seq![' ', '+']);
    assert(" @@"@ == seq![' ', '@', '@']);
    assert(" "@ == seq![' ']);
    let r = ranges(a, b, c, d);
    match h.section {
        Some(s) => {
            assert(rows::header_text(h) == r + (seq![' '] + s));
        },
        None => {
            assert(rows::header_text(h) == r + Seq::<char>::empty());
        },
    }
}

/// The ranges of a hunk as its header gives them.
pub open spec fn ranges(a: Seq<char>, b: Seq<char>, c: Seq<char>, d: Seq<char>) -> Seq<char> {
    seq!['@', '@', ' ', '-'] + a + seq![','] + b + seq![' ', '+'] + c + seq![','] + d + seq![
        ' ',
        '@',
        '@',
    ]
}

/// A file goes by its new path, and by its old one where it has no new one.
pub proof fn law_files_go_by_their_new_path(f: DiffFileV)
    ensures
        f.new_path.len() > 0 && f.new_path != "/dev/null"@ ==> f.display_path() == f.new_path,
        f.new_path.len() == 0 || f.new_path == "/dev/null"@ ==> f.display_path() == f.old_path,
{
}

} // verus!
