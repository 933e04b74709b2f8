//! How the two sides are lined up: unchanged lines on one row, and changed lines side by side.
use crate::comments::model::ThreadV;
use crate::diff::model::{DiffFileV, DiffLineV, HunkV, LineKind, Side};
use crate::ui::render_rows::rows;
use crate::ui::render_rows::split;
use crate::ui::render_rows::split::{CellV, Open, SplitKindV, SplitRowV};
use crate::ui::render_rows::threads;
use crate::ui::render_rows::threads::BuildV;
use vstd::prelude::*;

verus! {

/// Whether a row holds an unchanged line.
pub open spec fn unchanged(r: SplitRowV) -> bool {
    r.kind matches SplitKindV::Pair { left: Some(l), right: Some(_) } && l.kind
        == LineKind::Context
}

/// Whether a row holds a changed line on a side.
pub open spec fn changed_on(r: SplitRowV, side: Side) -> bool {
    match r.kind {
        SplitKindV::Pair { left, right } => !unchanged(r) && (match side {
            Side::Old => left is Some,
            Side::New => right is Some,
        }),
        _ => false,
    }
}

/// Whether a row is filled as it should be: with an unchanged line on both sides, and else with
/// a deletion on the left or an addition on the right, or both.
pub open spec fn well_filled(r: SplitRowV) -> bool {
    match r.kind {
        SplitKindV::Pair { left, right } => if unchanged(r) {
            right->0.kind == LineKind::Context && left->0.text == right->0.text
        } else {
            &&& left is Some || right is Some
            &&& left matches Some(l) ==> l.kind == LineKind::Deletion
            &&& right matches Some(x) ==> x.kind == LineKind::Addition
        },
        _ => true,
    }
}

/// Whether a row may follow another: where a row has a change on one side alone, the next one has
/// none on the other side.
pub open spec fn may_follow(r: SplitRowV, next: SplitRowV) -> bool {
    &&& changed_on(r, Side::Old) && !changed_on(r, Side::New) ==> !changed_on(next, Side::New)
    &&& changed_on(r, Side::New) && !changed_on(r, Side::Old) ==> !changed_on(next, Side::Old)
}

spec fn lined_up(s: Seq<SplitRowV>) -> bool {
    &&& forall|i: int| 0 <= i < s.len() ==> well_filled(#[trigger] s[i])
    &&& forall|i: int|
        #![trigger s[i]]
        0 <= i < s.len() - 1 ==> may_follow(s[i], s[i + 1])
}

/// Whether a row has no change.
spec fn calm(r: SplitRowV) -> bool {
    !changed_on(r, Side::Old) && !changed_on(r, Side::New)
}

proof fn lemma_add(a: Seq<SplitRowV>, b: Seq<SplitRowV>)
    requires
        lined_up(a),
        lined_up(b),
        a.len() == 0 || b.len() == 0 || calm(a.last()) || calm(b[0]),
    ensures
        lined_up(a + b),
{
    let s = a + b;
    assert forall|i: int| 0 <= i < s.len() implies well_filled(#[trigger] s[i]) by {
        if i < a.len() {
            assert(s[i] == a[i]);
        } else {
            assert(s[i] == b[i - a.len()]);
        }
    }
    assert forall|i: int|
        #![trigger s[i]]
        0 <= i < s.len() - 1 implies may_follow(s[i], s[i + 1]) by {
        if i < a.len() - 1 {
            assert(s[i] == a[i] && s[i + 1] == a[i + 1]);
        } else if i >= a.len() {
            assert(s[i] == b[i - a.len()] && s[i + 1] == b[i + 1 - a.len()]);
        } else {
            assert(s[i] == a.last() && s[i + 1] == b[0]);
        }
    }
}

spec fn boxless(b: BuildV) -> bool {
    b.threads.len() == 0 && b.composer is None
}

proof fn lemma_boxes(b: BuildV, fi: nat, anchors: Seq<(Side, u32)>, n: nat, composed: bool)
    requires
        boxless(b),
    ensures
        split::boxes(b, fi, anchors, n, composed).0 == Seq::<SplitRowV>::empty(),
    decreases n,
{
    if n > 0 {
        lemma_boxes(b, fi, anchors, (n - 1) as nat, composed);
    }
}

proof fn lemma_pair(
    b: BuildV,
    fi: nat,
    path: Seq<char>,
    left: Option<CellV>,
    right: Option<CellV>,
    ids: Seq<Seq<char>>,
    composed: bool,
)
    requires
        boxless(b),
    ensures
        split::pair_out(b, fi, path, left, right, ids, composed).rows == seq![
            split::plain_row(fi, SplitKindV::Pair { left, right }, Seq::empty()),
        ],
{
    let anchors = split::pair_anchors(left, right);
    lemma_boxes(b, fi, anchors, anchors.len(), composed);
}

proof fn lemma_zip(
    b: BuildV,
    fi: nat,
    path: Seq<char>,
    dels: Seq<CellV>,
    adds: Seq<CellV>,
    n: nat,
    ids: Seq<Seq<char>>,
    composed: bool,
)
    requires
        boxless(b),
    ensures
        split::zip_out(b, fi, path, dels, adds, n, ids, composed).rows == Seq::new(
            n,
            |i: int|
                split::plain_row(
                    fi,
                    SplitKindV::Pair {
                        left: split::cell_at(dels, i),
                        right: split::cell_at(adds, i),
                    },
                    Seq::empty(),
                ),
        ),
    decreases n,
{
    if n > 0 {
        lemma_zip(b, fi, path, dels, adds, (n - 1) as nat, ids, composed);
        let x = split::zip_out(b, fi, path, dels, adds, (n - 1) as nat, ids, composed);
        lemma_pair(
            b,
            fi,
            path,
            split::cell_at(dels, n - 1),
            split::cell_at(adds, n - 1),
            x.ids,
            x.composed,
        );
    }
}

spec fn all_of(cells: Seq<CellV>, kind: LineKind) -> bool {
    forall|i: int| 0 <= i < cells.len() ==> (#[trigger] cells[i]).kind == kind
}

/// What stays true while the lines of a hunk are gone through.
spec fn in_order(o: Open) -> bool {
    &&& lined_up(o.out.rows)
    &&& o.out.rows.len() == 0 || calm(o.out.rows.last())
    &&& all_of(o.dels, LineKind::Deletion)
    &&& all_of(o.adds, LineKind::Addition)
}

proof fn lemma_flushed(b: BuildV, fi: nat, path: Seq<char>, o: Open)
    requires
        boxless(b),
        in_order(o),
    ensures
        lined_up(split::flushed(b, fi, path, o).rows),
{
    let n = split::zip_len(o.dels, o.adds);
    lemma_zip(b, fi, path, o.dels, o.adds, n, o.out.ids, o.out.composed);
    let z = split::zip_out(b, fi, path, o.dels, o.adds, n, o.out.ids, o.out.composed).rows;
    assert forall|i: int| 0 <= i < z.len() implies well_filled(#[trigger] z[i]) by {
        if i < o.dels.len() {
            assert(o.dels[i].kind == LineKind::Deletion);
        }
        if i < o.adds.len() {
            assert(o.adds[i].kind == LineKind::Addition);
        }
    }
    assert forall|i: int|
        #![trigger z[i]]
        0 <= i < z.len() - 1 implies may_follow(z[i], z[i + 1]) by {
        if i < o.dels.len() {
            assert(o.dels[i].kind == LineKind::Deletion);
        }
        if i < o.adds.len() {
            assert(o.adds[i].kind == LineKind::Addition);
        }
    }
    lemma_add(o.out.rows, z);
}

proof fn lemma_open(
    b: BuildV,
    fi: nat,
    path: Seq<char>,
    lines: Seq<DiffLineV>,
    n: nat,
    ids: Seq<Seq<char>>,
    composed: bool,
)
    requires
        boxless(b),
        n <= lines.len(),
    ensures
        in_order(split::lines_open(b, fi, path, lines, n, ids, composed)),
    decreases n,
{
    if n > 0 {
        lemma_open(b, fi, path, lines, (n - 1) as nat, ids, composed);
        let o = split::lines_open(b, fi, path, lines, (n - 1) as nat, ids, composed);
        let l = lines[n - 1];
        if l.kind == LineKind::Context {
            lemma_flushed(b, fi, path, o);
            let f = split::flushed(b, fi, path, o);
            let left = Some(split::context_cell(l));
            let right = Some(split::line_cell(l));
            lemma_pair(b, fi, path, left, right, f.ids, f.composed);
            let p = split::pair_out(b, fi, path, left, right, f.ids, f.composed).rows;
            assert(calm(p[0]));
            assert(lined_up(p));
            lemma_add(f.rows, p);
        }
    }
}

proof fn lemma_hunks(
    b: BuildV,
    fi: nat,
    path: Seq<char>,
    hunks: Seq<HunkV>,
    n: nat,
    ids: Seq<Seq<char>>,
    composed: bool,
)
    requires
        boxless(b),
        n <= hunks.len(),
    ensures
        lined_up(split::hunks_out(b, fi, path, hunks, n, ids, composed).rows),
    decreases n,
{
    if n > 0 {
        lemma_hunks(b, fi, path, hunks, (n - 1) as nat, ids, composed);
        let x = split::hunks_out(b, fi, path, hunks, (n - 1) as nat, ids, composed);
        let h = hunks[n - 1];
        let head = split::plain_row(fi, SplitKindV::HunkHeader, rows::header_text(h));
        assert(lined_up(seq![head]));
        lemma_add(x.rows, seq![head]);
        assert(x.rows + seq![head] == x.rows.push(head));
        lemma_open(b, fi, path, h.lines, h.lines.len(), x.ids, x.composed);
        let o = split::lines_open(b, fi, path, h.lines, h.lines.len(), x.ids, x.composed);
        lemma_flushed(b, fi, path, o);
        lemma_add(x.rows.push(head), split::flushed(b, fi, path, o).rows);
    }
}

proof fn lemma_files(b: BuildV, files: Seq<DiffFileV>, n: nat)
    requires
        boxless(b),
        n <= files.len(),
    ensures
        lined_up(split::files_out(b, files, None, n).rows),
    decreases n,
{
    if n > 0 {
        lemma_files(b, files, (n - 1) as nat);
        let x = split::files_out(b, files, None, (n - 1) as nat);
        let fi = (n - 1) as nat;
        let f = files[n - 1];
        let path = f.display_path();
        let head = split::plain_row(fi, SplitKindV::FileHeader, path);
        let o = split::body_out(b, fi, f, x.ids, x.composed);
        if !f.is_binary {
            lemma_hunks(b, fi, path, f.hunks, f.hunks.len(), x.ids, x.composed);
        }
        assert(lined_up(o.rows));
        assert(lined_up(seq![head]));
        lemma_add(seq![head], o.rows);
        let inj = threads::inject(b, path, None, o.ids).0;
        let all = split::file_out(b, fi, f, x.ids, x.composed).rows;
        assert(all == seq![head] + o.rows);
        lemma_add(x.rows, all);
    }
}

/// Side by side, an unchanged line stands on both sides of one row, and a run of changed lines is
/// set line by line, deletions against additions: only where the one side has run out does a row
/// have the other side alone. (Boxes stand between the rows and change nothing of them.)
pub proof fn law_changes_stand_side_by_side(files: Seq<DiffFileV>, i: int)
    requires
        0 <= i < split::rows_of(files, Seq::empty(), 0, None, None).len(),
    ensures
        ({
            let r = split::rows_of(files, Seq::empty(), 0, None, None);
            &&& well_filled(r[i])
            &&& i + 1 < r.len() ==> may_follow(r[i], r[i + 1])
        }),
{
    let b = rows::build_view(files, Seq::<ThreadV>::empty(), 0, None, None);
    lemma_files(b, files, files.len());
}

} // verus!
