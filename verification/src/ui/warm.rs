//! What to highlight ahead of the viewport, and in which order.
//!
//! A worker highlights the file that was asked for last and then its neighbors outward, so that
//! a jump to the next file lands on a warm cache. Between any two lines a newer request takes
//! precedence, so that no file is highlighted that nobody views.
use crate::diff::model::{Changeset, DiffFile, DiffFileV, DiffLineV, HunkV};
use crate::strs;
use crate::ui::highlight_cache;
use crate::ui::highlight_cache::{listed, prefetch_order};
use crate::ui::render_rows::sanitize_line;
use crate::ui::render_rows::text;
use vstd::prelude::*;

verus! {

/// The worker's plan: the lines of every file, how many of them are highlighted, and the files
/// to highlight, in order.
pub struct Plan {
    texts: Vec<Vec<String>>,
    done: Vec<usize>,
    order: Vec<usize>,
}

/// What a [`Plan`] holds.
#[verifier::ext_equal]
pub struct PlanV {
    pub texts: Seq<Seq<Seq<char>>>,
    pub done: Seq<nat>,
    pub order: Seq<nat>,
}

/// What the worker does next.
#[derive(Debug)]
pub enum Step {
    /// Highlight this line of a file.
    Line { file: usize, text: String },
    /// Wait for a request.
    Wait,
}

/// What a [`Step`] says.
#[verifier::ext_equal]
pub enum StepV {
    Line { file: nat, text: Seq<char> },
    Wait,
}

impl View for Step {
    type V = StepV;

    open spec fn view(&self) -> StepV {
        match *self {
            Step::Line { file, text } => StepV::Line { file: file as nat, text: text@ },
            Step::Wait => StepV::Wait,
        }
    }
}

/// The views of the lines of files.
pub open spec fn texts_view(texts: Seq<Vec<String>>) -> Seq<Seq<Seq<char>>> {
    Seq::new(texts.len(), |i: int| strs::views(texts[i]@))
}

impl View for Plan {
    type V = PlanV;

    closed spec fn view(&self) -> PlanV {
        PlanV {
            texts: texts_view(self.texts@),
            done: highlight_cache::indices(self.done@),
            order: highlight_cache::indices(self.order@),
        }
    }
}

/// The texts of lines.
pub open spec fn line_texts(lines: Seq<DiffLineV>) -> Seq<Seq<char>> {
    Seq::new(lines.len(), |i: int| lines[i].text)
}

/// The texts of the lines of the first `n` hunks.
pub open spec fn hunk_texts(hunks: Seq<HunkV>, n: nat) -> Seq<Seq<char>>
    decreases n,
{
    if n == 0 {
        Seq::empty()
    } else {
        hunk_texts(hunks, (n - 1) as nat) + line_texts(hunks[n - 1].lines)
    }
}

/// The texts of the lines of files.
pub open spec fn file_texts(files: Seq<DiffFileV>) -> Seq<Seq<Seq<char>>> {
    Seq::new(files.len(), |i: int| hunk_texts(files[i].hunks, files[i].hunks.len()))
}

impl PlanV {
    /// No more lines of a file are highlighted than it has, and only files that there are shall
    /// be.
    pub open spec fn wf(self) -> bool {
        &&& self.done.len() == self.texts.len()
        &&& forall|i: int| 0 <= i < self.done.len() ==> (#[trigger] self.done[i]) <= self.texts[i].len()
        &&& forall|i: int| 0 <= i < self.order.len() ==> (#[trigger] self.order[i])
            < self.texts.len()
    }

    /// Whether all lines of a file are highlighted.
    pub open spec fn finished(self, file: nat) -> bool {
        self.done[file as int] >= self.texts[file as int].len()
    }

    /// Turned to a file: it and its neighbors are next. What lies outside of their window is no
    /// longer kept, so it counts as not highlighted.
    pub open spec fn turned(self, focus: nat) -> PlanV {
        let w = highlight_cache::window(focus, self.texts.len());
        PlanV {
            done: Seq::new(
                self.done.len(),
                |i: int|
                    if w.contains(i as nat) {
                        self.done[i]
                    } else {
                        0
                    },
            ),
            order: w,
            ..self
        }
    }

    /// Turned to the last of the requests, if there is one.
    pub open spec fn asked(self, requests: Seq<nat>) -> PlanV {
        if requests.len() > 0 {
            self.turned(requests.last())
        } else {
            self
        }
    }

    /// The first file from place `i` of the order on that has lines left.
    pub open spec fn next_from(self, i: int) -> Option<nat>
        decreases self.order.len() - i,
    {
        if i >= self.order.len() {
            None
        } else if !self.finished(self.order[i]) {
            Some(self.order[i])
        } else {
            self.next_from(i + 1)
        }
    }

    /// The next step.
    pub open spec fn step(self) -> StepV {
        match self.next_from(0) {
            Some(f) => StepV::Line {
                file: f,
                text: text::sanitized(self.texts[f as int][self.done[f as int] as int]),
            },
            None => StepV::Wait,
        }
    }

    /// After the next step.
    pub open spec fn stepped(self) -> PlanV {
        match self.next_from(0) {
            Some(f) => PlanV {
                done: self.done.update(f as int, self.done[f as int] + 1),
                ..self
            },
            None => self,
        }
    }
}

proof fn lemma_next_from(p: PlanV, i: int)
    requires
        0 <= i <= p.order.len(),
    ensures
        match p.next_from(i) {
            Some(f) => p.order.contains(f) && !p.finished(f),
            None => forall|j: int|
                i <= j < p.order.len() ==> p.finished(#[trigger] p.order[j]),
        },
    decreases p.order.len() - i,
{
    if i < p.order.len() && p.finished(p.order[i]) {
        lemma_next_from(p, i + 1);
    }
}

/// A newer request preempts: the next line is one of the file that was asked for last, as long
/// as it has lines left, whatever was asked for before.
pub proof fn law_newest_request_first(p: PlanV, requests: Seq<nat>)
    requires
        requests.len() > 0,
        requests.last() < p.texts.len(),
        !p.asked(requests).finished(requests.last()),
    ensures
        p.asked(requests).step() matches StepV::Line { file, .. } && file == requests.last(),
{
    let q = p.asked(requests);
    let f = requests.last();
    assert(q.order[0] == f);
    assert(q.next_from(0) == Some(f));
}

/// The worker waits exactly where every file of the window is highlighted.
pub proof fn law_waits_when_all_is_done(p: PlanV)
    ensures
        p.step() is Wait <==> forall|i: int|
            0 <= i < p.order.len() ==> p.finished(#[trigger] p.order[i]),
{
    lemma_next_from(p, 0);
    if p.next_from(0) is Some {
        let f = p.next_from(0)->0;
        let i = choose|i: int| 0 <= i < p.order.len() && p.order[i] == f;
        assert(!p.finished(p.order[i]));
    }
}

fn texts_of(f: &DiffFile) -> (r: Vec<String>)
    ensures
        strs::views(r@) == hunk_texts(f@.hunks, f@.hunks.len()),
{
    broadcast use strs::lemma_views_push;

    let mut r: Vec<String> = Vec::new();
    let mut i: usize = 0;
    assert(strs::views(r@) == Seq::<Seq<char>>::empty());
    while i < f.hunks.len()
        invariant
            i <= f.hunks.len(),
            strs::views(r@) == hunk_texts(f@.hunks, i as nat),
        decreases f.hunks.len() - i,
    {
        let h = &f.hunks[i];
        assert(h@ == f@.hunks[i as int]);
        let ghost all = line_texts(h@.lines);
        let ghost before = strs::views(r@);
        let mut j: usize = 0;
        assert(before + all.take(0) == before);
        while j < h.lines.len()
            invariant
                j <= h.lines.len(),
                all == line_texts(h@.lines),
                strs::views(r@) == before + all.take(j as int),
            decreases h.lines.len() - j,
        {
            assert(h.lines@[j as int]@ == h@.lines[j as int]);
            let ghost now = strs::views(r@);
            r.push(h.lines[j].text.clone());
            assert(all.take(j + 1) == all.take(j as int).push(all[j as int]));
            assert(now.push(all[j as int]) == before + all.take(j + 1));
            j += 1;
        }
        assert(all.take(all.len() as int) == all);
        i += 1;
    }
    r
}

impl Plan {
    /// A plan for the files of a changeset, with nothing asked for.
    pub fn new(changeset: &Changeset) -> (r: Plan)
        ensures
            r@.wf(),
            r@ == (PlanV {
                texts: file_texts(changeset@),
                done: Seq::new(changeset@.len(), |i: int| 0),
                order: Seq::empty(),
            }),
    {
        let ghost all = file_texts(changeset@);
        let mut texts: Vec<Vec<String>> = Vec::new();
        let mut done: Vec<usize> = Vec::new();
        let mut i: usize = 0;
        while i < changeset.files.len()
            invariant
                all == file_texts(changeset@),
                i <= changeset.files.len(),
                texts.len() == i,
                done.len() == i,
                forall|k: int| 0 <= k < i ==> strs::views((#[trigger] texts@[k])@) == all[k],
                forall|k: int| 0 <= k < i ==> #[trigger] done@[k] == 0,
            decreases changeset.files.len() - i,
        {
            assert(changeset.files@[i as int]@ == changeset@[i as int]);
            texts.push(texts_of(&changeset.files[i]));
            done.push(0);
            i += 1;
        }
        assert(texts_view(texts@) =~= all);
        let r = Plan { texts, done, order: Vec::new() };
        assert(r@.done =~= Seq::new(changeset@.len(), |i: int| 0));
        assert(r@.order =~= Seq::empty());
        r
    }

    fn turn_to(&mut self, focus: usize)
        requires
            old(self)@.wf(),
        ensures
            final(self)@ == old(self)@.turned(focus as nat),
            final(self)@.wf(),
    {
        let ghost p = self@;
        let n: usize = self.texts.len();
        let order = prefetch_order(focus, n);
        let ghost w = highlight_cache::indices(order@);
        let mut i: usize = 0;
        while i < self.done.len()
            invariant
                p == old(self)@,
                p.wf(),
                w == highlight_cache::indices(order@),
                self.texts@ == old(self).texts@,
                self.order@ == old(self).order@,
                self.done.len() == p.done.len(),
                i <= self.done.len(),
                forall|k: int|
                    0 <= k < i ==> #[trigger] self.done@[k] as nat == (if w.contains(k as nat) {
                        p.done[k]
                    } else {
                        0
                    }),
                forall|k: int|
                    i <= k < self.done.len() ==> #[trigger] self.done@[k] as nat == p.done[k],
            decreases self.done.len() - i,
        {
            if !listed(&order, i) {
                self.done.set(i, 0);
            }
            i += 1;
        }
        self.order = order;
        proof {
            assert(self@.texts =~= p.texts);
            assert(self@.done =~= p.turned(focus as nat).done);
            assert(self@ == p.turned(focus as nat));
            assert forall|k: int| 0 <= k < self@.order.len() implies (#[trigger] self@.order[k])
                < self@.texts.len() by {
                assert(w[k] < n);
            }
        }
    }

    /// Take the next step. `requests` are the files asked for since the last one, the newest of
    /// which counts.
    pub fn step(&mut self, requests: &Vec<usize>) -> (r: Step)
        requires
            old(self)@.wf(),
        ensures
            final(self)@.wf(),
            ({
                let p = old(self)@.asked(highlight_cache::indices(requests@));
                &&& r@ == p.step()
                &&& final(self)@ == p.stepped()
            }),
    {
        if requests.len() > 0 {
            self.turn_to(requests[requests.len() - 1]);
        }
        let ghost p = self@;
        assert(p == old(self)@.asked(highlight_cache::indices(requests@)));
        let mut i: usize = 0;
        while i < self.order.len()
            invariant
                self@ == p,
                p.wf(),
                i <= self.order.len(),
                p == old(self)@.asked(highlight_cache::indices(requests@)),
                p.next_from(0) == p.next_from(i as int),
            decreases self.order.len() - i,
        {
            let f: usize = self.order[i];
            assert(p.order[i as int] == f as nat);
            assert(p.texts[f as int] == strs::views(self.texts@[f as int]@));
            assert(p.done[f as int] == self.done@[f as int] as nat);
            let d: usize = self.done[f];
            if d < self.texts[f].len() {
                assert(p.texts[f as int][d as int] == self.texts@[f as int]@[d as int]@);
                let text = sanitize_line(self.texts[f][d].as_str());
                self.done.set(f, d + 1);
                proof {
                    assert(self@.done =~= p.done.update(f as int, d as nat + 1));
                    assert(self@.texts =~= p.texts);
                    assert(self@.order =~= p.order);
                    assert(self@ == p.stepped());
                    assert forall|k: int| 0 <= k < self@.done.len() implies (
                    #[trigger] self@.done[k]) <= self@.texts[k].len() by {
                        assert(p.done[k] <= p.texts[k].len());
                    }
                }
                return Step::Line { file: f, text };
            }
            i += 1;
        }
        Step::Wait
    }
}

} // verus!
