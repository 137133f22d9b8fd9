//! Hierarchical progress reporting: a tree of tasks and the events that
//! advance it.
//!
//! The tree and the application of one event to it are the logic here;
//! delivering events over a channel and publishing snapshots is plumbing
//! that stays with the runtime around the library.  Application carries a
//! depth budget of 64 levels: the model and the code agree exactly, and
//! both leave anything deeper untouched; no real task tree comes close.

use vstd::prelude::*;

verus! {

/// The depth budget for event application and search.
pub open spec fn depth_budget() -> u64 {
    64
}

/// What a task is doing.
#[derive(Clone, Copy, Debug, PartialEq, Eq, Structural)]
pub enum Status {
    /// Not started yet.
    WAITING,
    /// Running now.
    ACTIVE,
    /// Finished well.
    SUCCESS,
    /// Finished badly.
    FAILURE,
}

/// One observable change to the task tree.
pub enum Event {
    /// A task advanced by some amount.
    Progress { task_id: usize, newly_completed: usize },
    /// A task started.
    Start(usize),
    /// A task stopped without finishing.
    Stop(usize),
    /// A task finished well.
    Complete(usize),
    /// A task finished badly.
    Failed(usize),
    /// A subtask joined a parent.
    Add { task_id: usize, parent_id: usize, total: usize, label: Option<Vec<u8>> },
}

impl Event {
    /// A subtask joining a parent.
    pub fn add(task_id: usize, parent_id: usize, total: usize, label: Option<Vec<u8>>) -> (r: Self)
        ensures
            r is Add && r->Add_task_id == task_id && r->Add_parent_id == parent_id
                && r->Add_total == total && r->Add_label == label,
    {
        Event::Add { task_id, parent_id, total, label }
    }

    /// A task advancing.
    pub fn progress(task_id: usize, newly_completed: usize) -> (r: Self)
        ensures
            r is Progress && r->Progress_task_id == task_id
                && r->Progress_newly_completed == newly_completed,
    {
        Event::Progress { task_id, newly_completed }
    }

    /// A task starting.
    pub fn start(task_id: usize) -> (r: Self)
        ensures r == Event::Start(task_id),
    {
        Event::Start(task_id)
    }

    /// A task stopping.
    pub fn stop(task_id: usize) -> (r: Self)
        ensures r == Event::Stop(task_id),
    {
        Event::Stop(task_id)
    }

    /// A task finishing well.
    pub fn complete(task_id: usize) -> (r: Self)
        ensures r == Event::Complete(task_id),
    {
        Event::Complete(task_id)
    }

    /// A task finishing badly.
    pub fn failed(task_id: usize) -> (r: Self)
        ensures r == Event::Failed(task_id),
    {
        Event::Failed(task_id)
    }
}

/// The mathematical shape of a task tree.
#[verifier::ext_equal]
pub ghost struct ReportV {
    pub id: usize,
    pub label: Option<Seq<u8>>,
    pub total: usize,
    pub completed: usize,
    pub status: Status,
    pub subs: Seq<ReportV>,
}

/// A snapshot of one task: its identity, label, weights, status and
/// subtasks.
pub struct Report {
    id: usize,
    label: Option<Vec<u8>>,
    total: usize,
    completed: usize,
    status: Status,
    subreports: Vec<Report>,
}

broadcast use
    vstd::std_specs::vec::axiom_vec_decreases_to_view,
    vstd::seq::axiom_seq_index_decreases;

impl Report {
    /// The tree this report stands for.
    pub closed spec fn deep_view(&self) -> ReportV
        decreases *self, 1int, 0int,
    {
        ReportV {
            id: self.id,
            label: match self.label {
                Option::Some(ref l) => Option::Some(l@),
                Option::None => Option::None,
            },
            total: self.total,
            completed: self.completed,
            status: self.status,
            subs: deep_views_rec(self.subreports@, 0),
        }
    }
}

/// The trees of a report sequence from a position on.
pub closed spec fn deep_views_rec(s: Seq<Report>, i: int) -> Seq<ReportV>
    decreases s, 0int, s.len() - i,
{
    if i < 0 || i >= s.len() {
        Seq::empty()
    } else {
        seq![s[i].deep_view()] + deep_views_rec(s, i + 1)
    }
}

/// The trees a report sequence stands for.
pub open spec fn deep_views(s: Seq<Report>) -> Seq<ReportV> {
    Seq::new(s.len(), |i: int| s[i].deep_view())
}

/// The recursive and the pointwise forms agree from a position on.
proof fn lemma_deep_views_rec_from(s: Seq<Report>, i: int)
    requires 0 <= i <= s.len(),
    ensures
        deep_views_rec(s, i).len() == s.len() - i,
        forall|j: int| 0 <= j < s.len() - i
            ==> #[trigger] deep_views_rec(s, i)[j] == s[i + j].deep_view(),
    decreases s.len() - i,
{
    if i < s.len() {
        lemma_deep_views_rec_from(s, i + 1);
    }
}

/// The recursive form is the pointwise one.
pub proof fn lemma_deep_views_rec_eq(s: Seq<Report>)
    ensures deep_views_rec(s, 0) == deep_views(s),
{
    lemma_deep_views_rec_from(s, 0);
    assert(deep_views_rec(s, 0) =~= deep_views(s));
}

/// The view of an optional label.
pub open spec fn label_view(l: Option<Vec<u8>>) -> Option<Seq<u8>> {
    match l {
        Option::Some(v) => Option::Some(v@),
        Option::None => Option::None,
    }
}

/// A fresh waiting task.
pub open spec fn sp_new(id: usize, total: usize, label: Option<Seq<u8>>) -> ReportV {
    ReportV { id, label, total, completed: 0, status: Status::WAITING, subs: Seq::empty() }
}

/// Moving the named task to a status: exactly that task's status changes,
/// searched depth first down to the fuel; the flag says whether anything
/// changed.
pub open spec fn sp_status(rv: ReportV, task_id: usize, status: Status, fuel: u64)
    -> (ReportV, bool)
    decreases fuel, 1int, 0int,
{
    if rv.id == task_id {
        if rv.status != status {
            (ReportV { status, ..rv }, true)
        } else {
            (rv, false)
        }
    } else if fuel == 0 {
        (rv, false)
    } else {
        let (subs, changed) = sp_status_subs(rv.subs, task_id, status, fuel);
        (ReportV { subs, ..rv }, changed)
    }
}

/// Moving a status inside the first subtree that holds the task.
pub open spec fn sp_status_subs(s: Seq<ReportV>, task_id: usize, status: Status, fuel: u64)
    -> (Seq<ReportV>, bool)
    decreases fuel, 0int, s.len(),
{
    if s.len() == 0 || fuel == 0 {
        (s, false)
    } else {
        let (head, changed) = sp_status(s[0], task_id, status, (fuel - 1) as u64);
        if changed {
            (seq![head] + s.skip(1), true)
        } else {
            let (tail, changed2) = sp_status_subs(s.skip(1), task_id, status, fuel);
            (seq![head] + tail, changed2)
        }
    }
}

/// Advancing the named task: its completion grows by the amount
/// (saturating) and it becomes active; zero progress changes nothing.
pub open spec fn sp_progress(rv: ReportV, task_id: usize, amount: usize, fuel: u64)
    -> (ReportV, bool)
    decreases fuel, 1int, 0int,
{
    if amount == 0 {
        (rv, false)
    } else if rv.id == task_id {
        let completed = if rv.completed + amount <= usize::MAX {
            (rv.completed + amount) as usize
        } else {
            usize::MAX
        };
        (ReportV { completed, status: Status::ACTIVE, ..rv }, true)
    } else if fuel == 0 {
        (rv, false)
    } else {
        let (subs, changed) = sp_progress_subs(rv.subs, task_id, amount, fuel);
        (ReportV { subs, ..rv }, changed)
    }
}

/// Advancing inside the first subtree that holds the task.
pub open spec fn sp_progress_subs(s: Seq<ReportV>, task_id: usize, amount: usize, fuel: u64)
    -> (Seq<ReportV>, bool)
    decreases fuel, 0int, s.len(),
{
    if s.len() == 0 || fuel == 0 {
        (s, false)
    } else {
        let (head, changed) = sp_progress(s[0], task_id, amount, (fuel - 1) as u64);
        if changed {
            (seq![head] + s.skip(1), true)
        } else {
            let (tail, changed2) = sp_progress_subs(s.skip(1), task_id, amount, fuel);
            (seq![head] + tail, changed2)
        }
    }
}

/// Adding a waiting subtask under the named parent: the child joins the
/// end of the parent's list.
pub open spec fn sp_add(
    rv: ReportV,
    task_id: usize,
    parent_id: usize,
    total: usize,
    label: Option<Seq<u8>>,
    fuel: u64,
) -> (ReportV, bool)
    decreases fuel, 1int, 0int,
{
    if rv.id == parent_id {
        (ReportV { subs: rv.subs.push(sp_new(task_id, total, label)), ..rv }, true)
    } else if fuel == 0 {
        (rv, false)
    } else {
        let (subs, changed) = sp_add_subs(rv.subs, task_id, parent_id, total, label, fuel);
        (ReportV { subs, ..rv }, changed)
    }
}

/// Adding inside the first subtree that holds the parent.
pub open spec fn sp_add_subs(
    s: Seq<ReportV>,
    task_id: usize,
    parent_id: usize,
    total: usize,
    label: Option<Seq<u8>>,
    fuel: u64,
) -> (Seq<ReportV>, bool)
    decreases fuel, 0int, s.len(),
{
    if s.len() == 0 || fuel == 0 {
        (s, false)
    } else {
        let (head, changed) = sp_add(s[0], task_id, parent_id, total, label, (fuel - 1) as u64);
        if changed {
            (seq![head] + s.skip(1), true)
        } else {
            let (tail, changed2) = sp_add_subs(s.skip(1), task_id, parent_id, total, label, fuel);
            (seq![head] + tail, changed2)
        }
    }
}

/// What one event does to the tree.
pub open spec fn sp_apply(rv: ReportV, event: Event) -> (ReportV, bool) {
    match event {
        Event::Add { task_id, parent_id, total, label } => sp_add(
            rv, task_id, parent_id, total, label_view(label), depth_budget()),
        Event::Complete(task_id) => sp_status(rv, task_id, Status::SUCCESS, depth_budget()),
        Event::Failed(task_id) => sp_status(rv, task_id, Status::FAILURE, depth_budget()),
        Event::Start(task_id) => sp_status(rv, task_id, Status::ACTIVE, depth_budget()),
        Event::Stop(task_id) => sp_status(rv, task_id, Status::WAITING, depth_budget()),
        Event::Progress { task_id, newly_completed } => sp_progress(
            rv, task_id, newly_completed, depth_budget()),
    }
}

/// The task with the given identity, depth first down to the fuel.
pub open spec fn sp_get(rv: ReportV, task_id: usize, fuel: u64) -> Option<ReportV>
    decreases fuel, 1int, 0int,
{
    if rv.id == task_id {
        Option::Some(rv)
    } else if fuel == 0 {
        Option::None
    } else {
        sp_get_subs(rv.subs, task_id, fuel)
    }
}

/// The task with the given identity inside the first subtree holding it.
pub open spec fn sp_get_subs(s: Seq<ReportV>, task_id: usize, fuel: u64) -> Option<ReportV>
    decreases fuel, 0int, s.len(),
{
    if s.len() == 0 || fuel == 0 {
        Option::None
    } else {
        match sp_get(s[0], task_id, (fuel - 1) as u64) {
            Option::Some(rv) => Option::Some(rv),
            Option::None => sp_get_subs(s.skip(1), task_id, fuel),
        }
    }
}

/// The whole subtree's weight: the node's own plus every descendant's.
pub open spec fn rv_total(rv: ReportV) -> int
    decreases rv, 1int, 0int,
{
    rv.total + rvs_total_from(rv.subs, 0)
}

/// The weight of a subtree list from a position on.
pub open spec fn rvs_total_from(s: Seq<ReportV>, i: int) -> int
    decreases s, 0int, s.len() - i,
{
    if i < 0 || i >= s.len() {
        0
    } else {
        rv_total(s[i]) + rvs_total_from(s, i + 1)
    }
}

/// The whole subtree's completed weight.
pub open spec fn rv_completed(rv: ReportV) -> int
    decreases rv, 1int, 0int,
{
    rv.completed + rvs_completed_from(rv.subs, 0)
}

/// The completed weight of a subtree list from a position on.
pub open spec fn rvs_completed_from(s: Seq<ReportV>, i: int) -> int
    decreases s, 0int, s.len() - i,
{
    if i < 0 || i >= s.len() {
        0
    } else {
        rv_completed(s[i]) + rvs_completed_from(s, i + 1)
    }
}

impl Report {
    /// The root of a fresh task tree: waiting, nothing completed.
    pub fn new(id: usize, total: usize, label: Option<Vec<u8>>) -> (r: Self)
        ensures r.deep_view() == sp_new(id, total, label_view(label)),
    {
        let r = Report {
            id, label, total, completed: 0, status: Status::WAITING, subreports: Vec::new(),
        };
        proof {
            lemma_deep_views_rec_eq(r.subreports@);
            assert(r.deep_view() =~= sp_new(id, total, label_view(r.label)));
        }
        r
    }

    /// The task's identity.
    pub fn id(&self) -> (r: usize)
        ensures r == self.deep_view().id,
    {
        self.id
    }

    /// The task's label, if it has one.
    pub fn label(&self) -> (r: &Option<Vec<u8>>)
        ensures label_view(*r) == self.deep_view().label,
    {
        &self.label
    }

    /// The task's own weight, not counting subtasks.
    pub fn own_total(&self) -> (r: usize)
        ensures r == self.deep_view().total,
    {
        self.total
    }

    /// The task's own completed weight, not counting subtasks.
    pub fn own_completed(&self) -> (r: usize)
        ensures r == self.deep_view().completed,
    {
        self.completed
    }

    /// The task's status.
    pub fn status(&self) -> (r: Status)
        ensures r == self.deep_view().status,
    {
        self.status
    }

    /// The task's subtasks, in order of creation.
    pub fn subreports(&self) -> (r: &Vec<Report>)
        ensures deep_views(r@) == self.deep_view().subs,
    {
        proof {
            lemma_deep_views_rec_eq(self.subreports@);
            assert(deep_views(self.subreports@) =~= self.deep_view().subs);
        }
        &self.subreports
    }

    /// The whole subtree's weight, the node's own plus every
    /// descendant's, so a fraction complete is meaningful.
    pub fn total(&self) -> (r: usize)
        requires rv_total(self.deep_view()) <= usize::MAX,
        ensures r == rv_total(self.deep_view()),
        decreases *self,
    {
        proof {
            lemma_deep_views_rec_eq(self.subreports@);
            lemma_rv_total_nonneg(self.deep_view());
            lemma_rv_total_nonneg_from(self.deep_view().subs, 0);
        }
        let mut sum: usize = self.total;
        let n = self.subreports.len();
        let mut i: usize = 0;
        while i < n
            invariant
                i <= n,
                n == self.subreports@.len(),
                n == self.deep_view().subs.len(),
                rv_total(self.deep_view()) <= usize::MAX,
                sum == self.deep_view().total
                    + (rvs_total_from(self.deep_view().subs, 0)
                        - rvs_total_from(self.deep_view().subs, i as int)),
                rvs_total_from(self.deep_view().subs, i as int) >= 0,
            decreases n - i,
        {
            proof {
                let subs = self.deep_view().subs;
                lemma_deep_views_rec_eq(self.subreports@);
                assert(subs.len() == self.subreports@.len());
                assert(subs[i as int] == self.subreports@[i as int].deep_view());
                lemma_rv_total_nonneg_from(subs, i + 1);
                lemma_rv_total_nonneg(subs[i as int]);
                lemma_rvs_total_prefix_nonneg(self.deep_view(), i as int);
            }
            let child = self.subreports[i].total();
            sum = sum + child;
            i += 1;
        }
        sum
    }

    /// The whole subtree's completed weight.
    pub fn completed(&self) -> (r: usize)
        requires rv_completed(self.deep_view()) <= usize::MAX,
        ensures r == rv_completed(self.deep_view()),
        decreases *self,
    {
        proof {
            lemma_deep_views_rec_eq(self.subreports@);
            lemma_rv_completed_nonneg(self.deep_view());
            lemma_rv_completed_nonneg_from(self.deep_view().subs, 0);
        }
        let mut sum: usize = self.completed;
        let n = self.subreports.len();
        let mut i: usize = 0;
        while i < n
            invariant
                i <= n,
                n == self.subreports@.len(),
                n == self.deep_view().subs.len(),
                rv_completed(self.deep_view()) <= usize::MAX,
                sum == self.deep_view().completed
                    + (rvs_completed_from(self.deep_view().subs, 0)
                        - rvs_completed_from(self.deep_view().subs, i as int)),
                rvs_completed_from(self.deep_view().subs, i as int) >= 0,
            decreases n - i,
        {
            proof {
                let subs = self.deep_view().subs;
                lemma_deep_views_rec_eq(self.subreports@);
                assert(subs.len() == self.subreports@.len());
                assert(subs[i as int] == self.subreports@[i as int].deep_view());
                lemma_rv_completed_nonneg_from(subs, i + 1);
                lemma_rv_completed_nonneg(subs[i as int]);
                lemma_rvs_completed_prefix_nonneg(self.deep_view(), i as int);
            }
            let child = self.subreports[i].completed();
            sum = sum + child;
            i += 1;
        }
        sum
    }

    /// A borrow of the task with the given identity, searched depth first
    /// down to the depth budget.
    pub fn get(&self, task_id: usize) -> (r: Option<&Report>)
        ensures
            match r {
                Some(rep) => sp_get(self.deep_view(), task_id, depth_budget())
                    == Some(rep.deep_view()),
                None => sp_get(self.deep_view(), task_id, depth_budget()) is None,
            },
    {
        self.get_inner(task_id, 64)
    }

    fn get_inner(&self, task_id: usize, fuel: u64) -> (r: Option<&Report>)
        ensures
            match r {
                Some(rep) => sp_get(self.deep_view(), task_id, fuel) == Some(rep.deep_view()),
                None => sp_get(self.deep_view(), task_id, fuel) is None,
            },
        decreases fuel, 1int, 0int,
    {
        if self.id == task_id {
            return Some(self);
        }
        if fuel == 0 {
            return None;
        }
        proof {
            lemma_deep_views_rec_eq(self.subreports@);
            assert(deep_views(self.subreports@) =~= self.deep_view().subs);
            assert(deep_views(self.subreports@).skip(0) =~= self.deep_view().subs);
        }
        get_in_subs(&self.subreports, 0, task_id, fuel)
    }

    /// Applies one event to the tree, exactly as the model says, and
    /// reports whether anything changed.
    pub fn apply(self, event: Event) -> (r: (Report, bool))
        ensures (r.0.deep_view(), r.1) == sp_apply(self.deep_view(), event),
    {
        match event {
            Event::Add { task_id, parent_id, total, label } => {
                let (rep, changed, _leftover) = self.apply_add(task_id, parent_id, total, label, 64);
                (rep, changed)
            }
            Event::Complete(task_id) => self.apply_status(task_id, Status::SUCCESS, 64),
            Event::Failed(task_id) => self.apply_status(task_id, Status::FAILURE, 64),
            Event::Start(task_id) => self.apply_status(task_id, Status::ACTIVE, 64),
            Event::Stop(task_id) => self.apply_status(task_id, Status::WAITING, 64),
            Event::Progress { task_id, newly_completed } => {
                self.apply_progress(task_id, newly_completed, 64)
            }
        }
    }

    /// Moves the named task to a status.
    fn apply_status(self, task_id: usize, status: Status, fuel: u64) -> (r: (Report, bool))
        ensures (r.0.deep_view(), r.1) == sp_status(self.deep_view(), task_id, status, fuel),
        decreases fuel, 1int, 0int,
    {
        let mut this = self;
        let ghost rv = this.deep_view();
        if this.id == task_id {
            if this.status != status {
                this.status = status;
                proof { assert(this.deep_view() =~= (ReportV { status, ..rv })); }
                return (this, true);
            }
            return (this, false);
        }
        if fuel == 0 {
            return (this, false);
        }
        let subs = this.subreports;
        this.subreports = Vec::new();
        proof {
            lemma_deep_views_rec_eq(subs@);
            assert(deep_views(subs@) =~= rv.subs);
        }
        let (subs2, changed) = apply_status_subs(subs, task_id, status, fuel);
        this.subreports = subs2;
        proof {
            lemma_deep_views_rec_eq(this.subreports@);
            assert(this.deep_view() =~= (ReportV {
                subs: sp_status_subs(rv.subs, task_id, status, fuel).0, ..rv
            }));
        }
        (this, changed)
    }

    /// Advances the named task's completion.
    fn apply_progress(self, task_id: usize, amount: usize, fuel: u64) -> (r: (Report, bool))
        ensures (r.0.deep_view(), r.1) == sp_progress(self.deep_view(), task_id, amount, fuel),
        decreases fuel, 1int, 0int,
    {
        let mut this = self;
        let ghost rv = this.deep_view();
        if amount == 0 {
            return (this, false);
        }
        if this.id == task_id {
            this.status = Status::ACTIVE;
            if this.completed <= usize::MAX - amount {
                this.completed = this.completed + amount;
            } else {
                this.completed = usize::MAX;
            }
            proof {
                assert(this.deep_view() =~= (ReportV {
                    completed: this.completed, status: Status::ACTIVE, ..rv
                }));
            }
            return (this, true);
        }
        if fuel == 0 {
            return (this, false);
        }
        let subs = this.subreports;
        this.subreports = Vec::new();
        proof {
            lemma_deep_views_rec_eq(subs@);
            assert(deep_views(subs@) =~= rv.subs);
        }
        let (subs2, changed) = apply_progress_subs(subs, task_id, amount, fuel);
        this.subreports = subs2;
        proof {
            lemma_deep_views_rec_eq(this.subreports@);
            assert(this.deep_view() =~= (ReportV {
                subs: sp_progress_subs(rv.subs, task_id, amount, fuel).0, ..rv
            }));
        }
        (this, changed)
    }

    /// Adds a waiting subtask under the named parent.  The label comes
    /// back untouched when the parent was not found, so a search across
    /// sibling subtrees can pass it along.
    fn apply_add(
        self,
        task_id: usize,
        parent_id: usize,
        total: usize,
        label: Option<Vec<u8>>,
        fuel: u64,
    ) -> (r: (Report, bool, Option<Vec<u8>>))
        ensures
            (r.0.deep_view(), r.1)
                == sp_add(self.deep_view(), task_id, parent_id, total, label_view(label), fuel),
            !r.1 ==> label_view(r.2) == label_view(label),
        decreases fuel, 1int, 0int,
    {
        let mut this = self;
        let ghost rv = this.deep_view();
        if this.id == parent_id {
            let ghost before = this.subreports@;
            this.subreports.push(Report {
                id: task_id,
                label,
                total,
                completed: 0,
                status: Status::WAITING,
                subreports: Vec::new(),
            });
            proof {
                lemma_deep_views_rec_eq(before);
                lemma_deep_views_rec_eq(this.subreports@);
                let child = this.subreports@[this.subreports@.len() - 1];
                lemma_deep_views_rec_eq(child.subreports@);
                assert(child.deep_view() =~= sp_new(task_id, total, label_view(child.label)));
                assert(this.subreports@ =~= before.push(child));
                assert forall|j: int| 0 <= j < before.len()
                    implies deep_views(this.subreports@)[j] == deep_views(before)[j] by {
                    assert(this.subreports@[j] == before[j]);
                }
                assert(deep_views(this.subreports@)
                    =~= deep_views(before).push(child.deep_view()));
                assert(rv.subs == deep_views(before));
                assert(this.deep_view() =~= (ReportV {
                    subs: rv.subs.push(sp_new(task_id, total, label_view(child.label))),
                    ..rv
                }));
            }
            return (this, true, None);
        }
        if fuel == 0 {
            return (this, false, label);
        }
        let subs = this.subreports;
        this.subreports = Vec::new();
        proof {
            lemma_deep_views_rec_eq(subs@);
            assert(deep_views(subs@) =~= rv.subs);
        }
        let (subs2, changed, leftover) =
            apply_add_subs(subs, task_id, parent_id, total, label, fuel);
        this.subreports = subs2;
        proof {
            lemma_deep_views_rec_eq(this.subreports@);
            assert(this.deep_view() =~= (ReportV {
                subs: sp_add_subs(rv.subs, task_id, parent_id, total,
                    label_view(label), fuel).0,
                ..rv
            }));
        }
        (this, changed, leftover)
    }
}

/// Searches sibling subtrees from a position on.
fn get_in_subs<'a>(subs: &'a Vec<Report>, from: usize, task_id: usize, fuel: u64)
    -> (r: Option<&'a Report>)
    requires from <= subs@.len(), fuel >= 1,
    ensures
        match r {
            Some(rep) => sp_get_subs(deep_views(subs@).skip(from as int), task_id, fuel)
                == Some(rep.deep_view()),
            None => sp_get_subs(deep_views(subs@).skip(from as int), task_id, fuel) is None,
        },
    decreases fuel, 0int, subs@.len() - from,
{
    if from == subs.len() {
        proof { assert(deep_views(subs@).skip(from as int) =~= Seq::<ReportV>::empty()); }
        return None;
    }
    proof {
        assert(deep_views(subs@).skip(from as int)[0] == subs@[from as int].deep_view());
        assert(deep_views(subs@).skip(from as int).skip(1)
            =~= deep_views(subs@).skip(from + 1int));
    }
    let found = subs[from].get_inner(task_id, fuel - 1);
    match found {
        Some(rep) => Some(rep),
        None => get_in_subs(subs, from + 1, task_id, fuel),
    }
}

/// Applies a status move to the first subtree that holds the task.
fn apply_status_subs(subs: Vec<Report>, task_id: usize, status: Status, fuel: u64)
    -> (r: (Vec<Report>, bool))
    requires fuel >= 1,
    ensures
        (deep_views(r.0@), r.1) == sp_status_subs(deep_views(subs@), task_id, status, fuel),
    decreases fuel, 0int, subs@.len(),
{
    let mut subs = subs;
    let ghost sv = deep_views(subs@);
    if subs.len() == 0 {
        proof { assert(deep_views(subs@) =~= sv); }
        return (subs, false);
    }
    let first = subs.remove(0);
    proof {
        assert(sv[0] == first.deep_view());
        assert(deep_views(subs@) =~= sv.skip(1));
    }
    let (head, changed) = first.apply_status(task_id, status, fuel - 1);
    if changed {
        subs.insert(0, head);
        proof {
            assert(deep_views(subs@) =~= seq![sp_status(sv[0], task_id, status,
                (fuel - 1) as u64).0] + sv.skip(1));
        }
        return (subs, true);
    }
    let (tail, changed2) = apply_status_subs(subs, task_id, status, fuel);
    let mut out = tail;
    out.insert(0, head);
    proof {
        assert(deep_views(out@) =~= seq![sp_status(sv[0], task_id, status, (fuel - 1) as u64).0]
            + sp_status_subs(sv.skip(1), task_id, status, fuel).0);
    }
    (out, changed2)
}

/// Applies a progress advance to the first subtree that holds the task.
fn apply_progress_subs(subs: Vec<Report>, task_id: usize, amount: usize, fuel: u64)
    -> (r: (Vec<Report>, bool))
    requires fuel >= 1,
    ensures
        (deep_views(r.0@), r.1) == sp_progress_subs(deep_views(subs@), task_id, amount, fuel),
    decreases fuel, 0int, subs@.len(),
{
    let mut subs = subs;
    let ghost sv = deep_views(subs@);
    if subs.len() == 0 {
        proof { assert(deep_views(subs@) =~= sv); }
        return (subs, false);
    }
    let first = subs.remove(0);
    proof {
        assert(sv[0] == first.deep_view());
        assert(deep_views(subs@) =~= sv.skip(1));
    }
    let (head, changed) = first.apply_progress(task_id, amount, fuel - 1);
    if changed {
        subs.insert(0, head);
        proof {
            assert(deep_views(subs@) =~= seq![sp_progress(sv[0], task_id, amount,
                (fuel - 1) as u64).0] + sv.skip(1));
        }
        return (subs, true);
    }
    let (tail, changed2) = apply_progress_subs(subs, task_id, amount, fuel);
    let mut out = tail;
    out.insert(0, head);
    proof {
        assert(deep_views(out@) =~= seq![sp_progress(sv[0], task_id, amount, (fuel - 1) as u64).0]
            + sp_progress_subs(sv.skip(1), task_id, amount, fuel).0);
    }
    (out, changed2)
}

/// Adds a subtask in the first subtree that holds the parent.
fn apply_add_subs(
    subs: Vec<Report>,
    task_id: usize,
    parent_id: usize,
    total: usize,
    label: Option<Vec<u8>>,
    fuel: u64,
) -> (r: (Vec<Report>, bool, Option<Vec<u8>>))
    requires fuel >= 1,
    ensures
        (deep_views(r.0@), r.1) == sp_add_subs(deep_views(subs@), task_id, parent_id, total,
            label_view(label), fuel),
        !r.1 ==> label_view(r.2) == label_view(label),
    decreases fuel, 0int, subs@.len(),
{
    let mut subs = subs;
    let ghost sv = deep_views(subs@);
    let ghost lv = label_view(label);
    if subs.len() == 0 {
        proof { assert(deep_views(subs@) =~= sv); }
        return (subs, false, label);
    }
    let first = subs.remove(0);
    proof {
        assert(sv[0] == first.deep_view());
        assert(deep_views(subs@) =~= sv.skip(1));
    }
    let (head, changed, leftover) = first.apply_add(task_id, parent_id, total, label, fuel - 1);
    if changed {
        subs.insert(0, head);
        proof {
            assert(deep_views(subs@) =~= seq![sp_add(sv[0], task_id, parent_id, total, lv,
                (fuel - 1) as u64).0] + sv.skip(1));
        }
        return (subs, true, None);
    }
    let (tail, changed2, leftover2) =
        apply_add_subs(subs, task_id, parent_id, total, leftover, fuel);
    let mut out = tail;
    out.insert(0, head);
    proof {
        assert(deep_views(out@) =~= seq![sp_add(sv[0], task_id, parent_id, total, lv,
            (fuel - 1) as u64).0]
            + sp_add_subs(sv.skip(1), task_id, parent_id, total, lv, fuel).0);
    }
    (out, changed2, leftover2)
}

/// Every subtree weight is at least zero.
proof fn lemma_rv_total_nonneg(rv: ReportV)
    ensures rv_total(rv) >= 0,
    decreases rv, 1int, 0int,
{
    lemma_rv_total_nonneg_from(rv.subs, 0);
}

proof fn lemma_rv_total_nonneg_from(s: Seq<ReportV>, i: int)
    ensures rvs_total_from(s, i) >= 0,
    decreases s, 0int, s.len() - i,
{
    if 0 <= i && i < s.len() {
        lemma_rv_total_nonneg(s[i]);
        lemma_rv_total_nonneg_from(s, i + 1);
    }
}

/// The list weight from a position splits off one element at a time.
proof fn lemma_rvs_total_prefix_nonneg(rv: ReportV, i: int)
    requires 0 <= i < rv.subs.len(), rv_total(rv) <= usize::MAX,
    ensures
        rvs_total_from(rv.subs, i) == rv_total(rv.subs[i]) + rvs_total_from(rv.subs, i + 1),
        rv_total(rv.subs[i]) <= usize::MAX,
{
    lemma_rv_total_nonneg_from(rv.subs, i + 1);
    lemma_rv_total_nonneg(rv.subs[i]);
    lemma_rvs_total_head_bound(rv.subs, 0, i);
}

/// Each element's weight is bounded by the list weight before it runs out.
proof fn lemma_rvs_total_head_bound(s: Seq<ReportV>, i: int, target: int)
    requires 0 <= i <= target < s.len(),
    ensures rv_total(s[target]) <= rvs_total_from(s, i),
    decreases target - i,
{
    lemma_rv_total_nonneg(s[i]);
    lemma_rv_total_nonneg_from(s, i + 1);
    if i == target {
    } else {
        lemma_rvs_total_head_bound(s, i + 1, target);
    }
}

/// Every completed weight is at least zero.
proof fn lemma_rv_completed_nonneg(rv: ReportV)
    ensures rv_completed(rv) >= 0,
    decreases rv, 1int, 0int,
{
    lemma_rv_completed_nonneg_from(rv.subs, 0);
}

proof fn lemma_rv_completed_nonneg_from(s: Seq<ReportV>, i: int)
    ensures rvs_completed_from(s, i) >= 0,
    decreases s, 0int, s.len() - i,
{
    if 0 <= i && i < s.len() {
        lemma_rv_completed_nonneg(s[i]);
        lemma_rv_completed_nonneg_from(s, i + 1);
    }
}

/// The completed list weight splits off one element at a time.
proof fn lemma_rvs_completed_prefix_nonneg(rv: ReportV, i: int)
    requires 0 <= i < rv.subs.len(), rv_completed(rv) <= usize::MAX,
    ensures
        rvs_completed_from(rv.subs, i)
            == rv_completed(rv.subs[i]) + rvs_completed_from(rv.subs, i + 1),
        rv_completed(rv.subs[i]) <= usize::MAX,
{
    lemma_rv_completed_nonneg_from(rv.subs, i + 1);
    lemma_rv_completed_nonneg(rv.subs[i]);
    lemma_rvs_completed_head_bound(rv.subs, 0, i);
}

proof fn lemma_rvs_completed_head_bound(s: Seq<ReportV>, i: int, target: int)
    requires 0 <= i <= target < s.len(),
    ensures rv_completed(s[target]) <= rvs_completed_from(s, i),
    decreases target - i,
{
    lemma_rv_completed_nonneg(s[i]);
    lemma_rv_completed_nonneg_from(s, i + 1);
    if i == target {
    } else {
        lemma_rvs_completed_head_bound(s, i + 1, target);
    }
}

} // verus!
