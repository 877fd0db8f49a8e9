//! The download engine: a registry of per-comic tasks, two counting
//! semaphores (comic permits and image permits) and a byte counter.
//!
//! Every decision of the engine is a method here that takes the current state
//! and one event (a command, a permit request, an image outcome) and returns
//! the next state and the action to perform. The caller performs the action
//! (network, disk, timers) and reports back. Stale reports, from a run that
//! was replaced by a newer one, are recognised by the task's serial number
//! and ignored.
use vstd::prelude::*;

use crate::text::{chars_of, decimal, decimal_chars, digit_char, digit_to_char, string_of, zero_pad};
use vstd::arithmetic::div_mod::lemma_fundamental_div_mod;
use crate::types::{same_comic, Comic, ImgInImgList};

verus! {

/// Lifecycle of one comic's download.
#[derive(Debug, Clone, Copy, PartialEq, Eq, Structural)]
pub enum DownloadTaskState {
    Pending,
    Downloading,
    Paused,
    Cancelled,
    Completed,
    Failed,
}

pub open spec fn is_terminal(s: DownloadTaskState) -> bool {
    s == DownloadTaskState::Cancelled || s == DownloadTaskState::Completed || s
        == DownloadTaskState::Failed
}

/// Progress of one image of a comic.
#[derive(Debug, Clone, Copy, PartialEq, Eq, Structural)]
pub enum ImgState {
    /// Waiting for an image permit.
    Queued,
    /// Holding an image permit.
    Fetching,
    /// Written to disk (or found there already).
    Saved,
    /// Given up; it does not count as downloaded.
    Failed,
}

pub open spec fn img_done(s: ImgState) -> bool {
    s == ImgState::Saved || s == ImgState::Failed
}

/// Comics with more planned images than this are refused: image files are
/// named by a four-digit ordinal.
pub const MAX_IMAGES: usize = 9999;

/// One comic's task.
#[derive(Debug)]
pub struct DownloadTask {
    /// The comic as submitted.
    pub comic: Comic,
    pub state: DownloadTaskState,
    /// Identifies this run of the comic; a re-submission gets a new one.
    pub serial: u64,
    /// Position in the queue for a comic permit; lower goes first.
    pub ticket: u64,
    /// Whether the image plan has been made.
    pub started: bool,
    /// Whether the final rename has been decided and not yet reported.
    pub publishing: bool,
    pub imgs: Vec<ImgState>,
    pub downloaded_img_count: u32,
    pub total_img_count: u32,
}

/// `t` is the task of `comic` right after it was submitted as run `serial`.
pub open spec fn is_fresh(t: DownloadTask, comic: Comic, serial: u64) -> bool {
    &&& t.comic == comic
    &&& t.state == DownloadTaskState::Pending
    &&& t.serial == serial
    &&& t.ticket == serial
    &&& !t.started
    &&& !t.publishing
    &&& t.imgs@.len() == 0
    &&& t.downloaded_img_count == 0
    &&& t.total_img_count == 0
}

pub open spec fn sum_of<A>(s: Seq<A>, f: spec_fn(A) -> nat) -> nat
    decreases s.len(),
{
    if s.len() == 0 {
        0
    } else {
        sum_of(s.drop_last(), f) + f(s.last())
    }
}

pub open spec fn fetching_of(s: ImgState) -> nat {
    if s == ImgState::Fetching {
        1
    } else {
        0
    }
}

pub open spec fn saved_of(s: ImgState) -> nat {
    if s == ImgState::Saved {
        1
    } else {
        0
    }
}

/// Images of one task that hold an image permit.
pub open spec fn fetching_count(imgs: Seq<ImgState>) -> nat {
    sum_of(imgs, |s: ImgState| fetching_of(s))
}

/// Images of one task that were saved.
pub open spec fn saved_count(imgs: Seq<ImgState>) -> nat {
    sum_of(imgs, |s: ImgState| saved_of(s))
}

pub open spec fn downloading_of(t: DownloadTask) -> nat {
    if t.state == DownloadTaskState::Downloading {
        1
    } else {
        0
    }
}

/// Tasks in `Downloading`.
pub open spec fn downloading_count(tasks: Seq<DownloadTask>) -> nat {
    sum_of(tasks, |t: DownloadTask| downloading_of(t))
}

/// Images, over all tasks, that hold an image permit.
pub open spec fn fetching_total(tasks: Seq<DownloadTask>) -> nat {
    sum_of(tasks, |t: DownloadTask| fetching_count(t.imgs@))
}

/// What a task must satisfy on its own.
pub open spec fn task_wf(t: DownloadTask) -> bool {
    &&& t.total_img_count as nat == t.imgs@.len()
    &&& t.total_img_count <= MAX_IMAGES
    &&& t.downloaded_img_count as nat == saved_count(t.imgs@)
    &&& !t.started ==> t.imgs@.len() == 0
    &&& t.state == DownloadTaskState::Completed ==> t.downloaded_img_count
        == t.total_img_count
    &&& t.publishing ==> t.downloaded_img_count == t.total_img_count
    &&& t.publishing ==> t.started
    &&& t.started ==> t.total_img_count as nat == planned_urls(t.comic.img_list.0@).len()
}

/// The engine's state as a mathematical value.
pub struct ManagerView {
    pub comic_capacity: nat,
    pub img_capacity: nat,
    /// Comic permits handed out.
    pub comic_in_use: nat,
    /// Image permits handed out.
    pub img_in_use: nat,
    /// Bytes written since the last speed report.
    pub byte_per_sec: nat,
    /// The next serial (and ticket) to hand out.
    pub next_serial: nat,
    pub tasks: Seq<DownloadTask>,
    /// Comics that ever reached `Completed`.
    pub completed: Set<i64>,
    /// Comics whose final directory was produced.
    pub published: Set<i64>,
}

impl ManagerView {
    pub open spec fn contains(self, id: i64) -> bool {
        exists|i: int| 0 <= i < self.tasks.len() && #[trigger] self.tasks[i].comic.id == id
    }

    pub open spec fn index_of(self, id: i64) -> int {
        choose|i: int| 0 <= i < self.tasks.len() && #[trigger] self.tasks[i].comic.id == id
    }

    /// The task registered for `id`; meaningful when `contains(id)`.
    pub open spec fn task(self, id: i64) -> DownloadTask {
        self.tasks[self.index_of(id)]
    }

    /// Whether the task for `id` is running: not terminal, or its final
    /// rename is under way.
    pub open spec fn is_live(self, id: i64) -> bool {
        self.contains(id) && (!is_terminal(self.task(id).state) || self.task(id).publishing)
    }

    /// Whether `serial` names the current run of the task for `id`.
    pub open spec fn is_current(self, id: i64, serial: u64) -> bool {
        self.contains(id) && self.task(id).serial == serial
    }

    pub open spec fn wf(self) -> bool {
        &&& forall|i: int, j: int|
            0 <= i < self.tasks.len() && 0 <= j < self.tasks.len() && i != j
                ==> #[trigger] self.tasks[i].comic.id != #[trigger] self.tasks[j].comic.id
        &&& forall|i: int| 0 <= i < self.tasks.len() ==> task_wf(#[trigger] self.tasks[i])
        &&& forall|i: int|
            0 <= i < self.tasks.len() ==> (#[trigger] self.tasks[i]).serial < self.next_serial
                && self.tasks[i].ticket < self.next_serial
        &&& self.comic_in_use == downloading_count(self.tasks)
        &&& self.comic_in_use <= self.comic_capacity
        &&& self.img_in_use == fetching_total(self.tasks)
        &&& self.img_in_use <= self.img_capacity
        &&& self.published.subset_of(self.completed)
        &&& forall|i: int|
            0 <= i < self.tasks.len() && (#[trigger] self.tasks[i]).state
                == DownloadTaskState::Completed ==> self.completed.contains(self.tasks[i].comic.id)
    }
}

/// The engine. See the module documentation.
pub struct DownloadManager {
    comic_capacity: usize,
    img_capacity: usize,
    comic_in_use: usize,
    img_in_use: usize,
    byte_per_sec: u64,
    next_serial: u64,
    tasks: Vec<DownloadTask>,
    completed: Ghost<Set<i64>>,
    published: Ghost<Set<i64>>,
}

impl View for DownloadManager {
    type V = ManagerView;

    closed spec fn view(&self) -> ManagerView {
        ManagerView {
            comic_capacity: self.comic_capacity as nat,
            img_capacity: self.img_capacity as nat,
            comic_in_use: self.comic_in_use as nat,
            img_in_use: self.img_in_use as nat,
            byte_per_sec: self.byte_per_sec as nat,
            next_serial: self.next_serial as nat,
            tasks: self.tasks@,
            completed: self.completed@,
            published: self.published@,
        }
    }
}

proof fn lemma_sum_push<A>(s: Seq<A>, x: A, f: spec_fn(A) -> nat)
    ensures
        sum_of(s.push(x), f) == sum_of(s, f) + f(x),
{
    assert(s.push(x).drop_last() =~= s);
}

proof fn lemma_sum_update<A>(s: Seq<A>, i: int, x: A, f: spec_fn(A) -> nat)
    requires
        0 <= i < s.len(),
    ensures
        sum_of(s.update(i, x), f) + f(s[i]) == sum_of(s, f) + f(x),
    decreases s.len(),
{
    let u = s.update(i, x);
    if i == s.len() - 1 {
        assert(u.drop_last() =~= s.drop_last());
    } else {
        assert(u.drop_last() =~= s.drop_last().update(i, x));
        lemma_sum_update(s.drop_last(), i, x, f);
    }
}

proof fn lemma_sum_empty<A>(f: spec_fn(A) -> nat)
    ensures
        sum_of(Seq::<A>::empty(), f) == 0,
{
}

proof fn lemma_sum_positive<A>(s: Seq<A>, i: int, f: spec_fn(A) -> nat)
    requires
        0 <= i < s.len(),
    ensures
        f(s[i]) <= sum_of(s, f),
    decreases s.len(),
{
    if i < s.len() - 1 {
        lemma_sum_positive(s.drop_last(), i, f);
    }
}

proof fn lemma_downloading_update(s: Seq<DownloadTask>, i: int, x: DownloadTask)
    requires
        0 <= i < s.len(),
    ensures
        downloading_count(s.update(i, x)) + downloading_of(s[i]) == downloading_count(s)
            + downloading_of(x),
{
    lemma_sum_update(s, i, x, |t: DownloadTask| downloading_of(t));
}

proof fn lemma_fetching_total_update(s: Seq<DownloadTask>, i: int, x: DownloadTask)
    requires
        0 <= i < s.len(),
    ensures
        fetching_total(s.update(i, x)) + fetching_count(s[i].imgs@) == fetching_total(s)
            + fetching_count(x.imgs@),
{
    lemma_sum_update(s, i, x, |t: DownloadTask| fetching_count(t.imgs@));
}

proof fn lemma_fetching_total_bound(s: Seq<DownloadTask>, i: int)
    requires
        0 <= i < s.len(),
    ensures
        fetching_count(s[i].imgs@) <= fetching_total(s),
{
    lemma_sum_positive(s, i, |t: DownloadTask| fetching_count(t.imgs@));
}

proof fn lemma_imgs_update(s: Seq<ImgState>, k: int, x: ImgState)
    requires
        0 <= k < s.len(),
    ensures
        fetching_count(s.update(k, x)) + fetching_of(s[k]) == fetching_count(s) + fetching_of(x),
        saved_count(s.update(k, x)) + saved_of(s[k]) == saved_count(s) + saved_of(x),
{
    lemma_sum_update(s, k, x, |t: ImgState| fetching_of(t));
    lemma_sum_update(s, k, x, |t: ImgState| saved_of(t));
}

pub open spec fn with_state(t: DownloadTask, s: DownloadTaskState) -> DownloadTask {
    DownloadTask { state: s, ..t }
}

/// Every comic other than `id` is registered in `new` exactly as in `old`.
pub open spec fn same_elsewhere(old: ManagerView, new: ManagerView, id: i64) -> bool {
    forall|other: i64|
        other != id ==> (#[trigger] new.contains(other) == old.contains(other) && (old.contains(
            other,
        ) ==> new.task(other) == old.task(other)))
}

/// `new` registers `t` for `id` and is `old` for every other comic.
pub open spec fn registry_updated(
    old: ManagerView,
    new: ManagerView,
    id: i64,
    t: DownloadTask,
) -> bool {
    &&& new.contains(id)
    &&& new.task(id) == t
    &&& same_elsewhere(old, new, id)
}

/// The counters and logs that only some events touch.
pub open spec fn same_settings(old: ManagerView, new: ManagerView) -> bool {
    &&& new.comic_capacity == old.comic_capacity
    &&& new.img_capacity == old.img_capacity
    &&& new.byte_per_sec == old.byte_per_sec
    &&& new.completed == old.completed
    &&& new.published == old.published
}

proof fn lemma_lookup(v: ManagerView, id: i64, i: int)
    requires
        forall|a: int, b: int|
            0 <= a < v.tasks.len() && 0 <= b < v.tasks.len() && a != b
                ==> #[trigger] v.tasks[a].comic.id != #[trigger] v.tasks[b].comic.id,
        0 <= i < v.tasks.len(),
        v.tasks[i].comic.id == id,
    ensures
        v.contains(id),
        v.index_of(id) == i,
        v.task(id) == v.tasks[i],
{
    assert(v.tasks[i].comic.id == id);
    let j = v.index_of(id);
    assert(0 <= j < v.tasks.len() && v.tasks[j].comic.id == id);
}

proof fn lemma_update_at(old: ManagerView, new: ManagerView, i: int, t: DownloadTask)
    requires
        old.wf(),
        0 <= i < old.tasks.len(),
        t.comic.id == old.tasks[i].comic.id,
        new.tasks == old.tasks.update(i, t),
    ensures
        registry_updated(old, new, t.comic.id, t),
        old.index_of(t.comic.id) == i,
        forall|a: int, b: int|
            0 <= a < new.tasks.len() && 0 <= b < new.tasks.len() && a != b
                ==> #[trigger] new.tasks[a].comic.id != #[trigger] new.tasks[b].comic.id,
{
    let id = t.comic.id;
    assert forall|a: int, b: int|
        0 <= a < new.tasks.len() && 0 <= b < new.tasks.len() && a != b implies #[trigger] new.tasks[a].comic.id
        != #[trigger] new.tasks[b].comic.id by {
        assert(new.tasks[a].comic.id == old.tasks[a].comic.id);
        assert(new.tasks[b].comic.id == old.tasks[b].comic.id);
    }
    lemma_lookup(old, id, i);
    lemma_lookup(new, id, i);
    assert forall|other: i64| other != id implies (#[trigger] new.contains(other) == old.contains(
        other,
    ) && (old.contains(other) ==> new.task(other) == old.task(other))) by {
        if old.contains(other) {
            let j = old.index_of(other);
            assert(new.tasks[j].comic.id == other);
            lemma_lookup(new, other, j);
            lemma_lookup(old, other, j);
        }
        if new.contains(other) {
            let j = new.index_of(other);
            assert(old.tasks[j].comic.id == other);
        }
    }
}

proof fn lemma_push(old: ManagerView, new: ManagerView, t: DownloadTask)
    requires
        old.wf(),
        !old.contains(t.comic.id),
        new.tasks == old.tasks.push(t),
    ensures
        registry_updated(old, new, t.comic.id, t),
        forall|a: int, b: int|
            0 <= a < new.tasks.len() && 0 <= b < new.tasks.len() && a != b
                ==> #[trigger] new.tasks[a].comic.id != #[trigger] new.tasks[b].comic.id,
{
    let id = t.comic.id;
    let n = old.tasks.len() as int;
    assert forall|a: int, b: int|
        0 <= a < new.tasks.len() && 0 <= b < new.tasks.len() && a != b implies #[trigger] new.tasks[a].comic.id
        != #[trigger] new.tasks[b].comic.id by {
        if a == n {
            assert(old.tasks[b].comic.id != id);
        } else if b == n {
            assert(old.tasks[a].comic.id != id);
        } else {
            assert(new.tasks[a] == old.tasks[a]);
            assert(new.tasks[b] == old.tasks[b]);
        }
    }
    lemma_lookup(new, id, n);
    assert forall|other: i64| other != id implies (#[trigger] new.contains(other) == old.contains(
        other,
    ) && (old.contains(other) ==> new.task(other) == old.task(other))) by {
        if old.contains(other) {
            let j = old.index_of(other);
            assert(new.tasks[j].comic.id == other);
            lemma_lookup(new, other, j);
            lemma_lookup(old, other, j);
        }
        if new.contains(other) {
            let j = new.index_of(other);
            if j < n {
                assert(old.tasks[j].comic.id == other);
            }
        }
    }
}

/// After the task at `i` changed, the per-task parts of the invariant hold
/// of every task if they hold of the changed one.
proof fn lemma_task_facts_after_update(old: ManagerView, new: ManagerView, i: int)
    requires
        old.wf(),
        0 <= i < old.tasks.len(),
        new.tasks == old.tasks.update(i, new.tasks[i]),
        task_wf(new.tasks[i]),
        new.tasks[i].state == DownloadTaskState::Completed ==> new.completed.contains(
            new.tasks[i].comic.id,
        ),
        new.tasks[i].serial < new.next_serial,
        new.tasks[i].ticket < new.next_serial,
        old.next_serial <= new.next_serial,
        old.completed.subset_of(new.completed),
    ensures
        forall|j: int| 0 <= j < new.tasks.len() ==> task_wf(#[trigger] new.tasks[j]),
        forall|j: int|
            0 <= j < new.tasks.len() && (#[trigger] new.tasks[j]).state
                == DownloadTaskState::Completed ==> new.completed.contains(new.tasks[j].comic.id),
        forall|j: int|
            0 <= j < new.tasks.len() ==> (#[trigger] new.tasks[j]).serial < new.next_serial
                && new.tasks[j].ticket < new.next_serial,
{
    assert forall|j: int| 0 <= j < new.tasks.len() && j != i implies new.tasks[j] == old.tasks[j] by {
    }
}

/// Why a command on the registry failed.
#[derive(Debug, Clone, Copy, PartialEq, Eq, Structural)]
pub enum DownloadError {
    /// No task is registered for the comic.
    NotFound,
}

/// What a comic's coordination loop does next.
#[derive(Debug, Clone, Copy, PartialEq, Eq, Structural)]
pub enum ComicStep {
    /// The run is over: stop.
    Exit,
    /// Nothing to do until the state changes or a permit is returned.
    Wait,
    /// The task holds a comic permit: drive the image pipeline.
    Run,
}

/// What an image's loop does next.
#[derive(Debug, Clone, Copy, PartialEq, Eq, Structural)]
pub enum ImgStep {
    Exit,
    Wait,
    /// The image holds an image permit: fetch and save it.
    Fetch,
}

/// What to do once every image of a run has finished.
#[derive(Debug, Clone, Copy, PartialEq, Eq, Structural)]
pub enum FinishStep {
    /// The run is no longer current or has ended.
    Abandon,
    /// Not yet: the task is not downloading, or images are outstanding.
    NotNow,
    /// All images are saved: rename the temporary directory, then report.
    Publish,
    /// Images are missing; the task is now `Failed`.
    Failed,
}

/// Whether the task at `i` is first in line for a comic permit.
pub open spec fn first_in_line(tasks: Seq<DownloadTask>, i: int) -> bool {
    forall|j: int|
        0 <= j < tasks.len() && (#[trigger] tasks[j]).state == DownloadTaskState::Pending
            ==> tasks[i].ticket <= tasks[j].ticket
}

/// Whether a comic-step for run `serial` of `id` acquires a comic permit.
pub open spec fn grants_comic_permit(v: ManagerView, id: i64, serial: u64) -> bool {
    &&& v.is_current(id, serial)
    &&& v.task(id).state == DownloadTaskState::Pending
    &&& v.comic_in_use < v.comic_capacity
    &&& first_in_line(v.tasks, v.index_of(id))
}

pub open spec fn comic_step_spec(v: ManagerView, id: i64, serial: u64) -> ComicStep {
    if !v.is_current(id, serial) || is_terminal(v.task(id).state) {
        ComicStep::Exit
    } else if v.task(id).state == DownloadTaskState::Downloading || grants_comic_permit(
        v,
        id,
        serial,
    ) {
        ComicStep::Run
    } else {
        ComicStep::Wait
    }
}

impl DownloadManager {
    /// An engine with no tasks and the given permit capacities.
    pub fn new(comic_concurrency: usize, img_concurrency: usize) -> (r: Self)
        ensures
            r@.wf(),
            r@.comic_capacity == comic_concurrency,
            r@.img_capacity == img_concurrency,
            r@.tasks.len() == 0,
            r@.comic_in_use == 0,
            r@.img_in_use == 0,
            r@.byte_per_sec == 0,
            r@.next_serial == 0,
            r@.completed == Set::<i64>::empty(),
            r@.published == Set::<i64>::empty(),
    {
        let r = DownloadManager {
            comic_capacity: comic_concurrency,
            img_capacity: img_concurrency,
            comic_in_use: 0,
            img_in_use: 0,
            byte_per_sec: 0,
            next_serial: 0,
            tasks: Vec::new(),
            completed: Ghost(Set::empty()),
            published: Ghost(Set::empty()),
        };
        proof {
            lemma_sum_empty(|t: DownloadTask| downloading_of(t));
            lemma_sum_empty(|t: DownloadTask| fetching_count(t.imgs@));
        }
        r
    }

    fn find(&self, id: i64) -> (r: Option<usize>)
        requires
            self@.wf(),
        ensures
            match r {
                Some(i) => i < self@.tasks.len() && self@.tasks[i as int].comic.id == id
                    && self@.contains(id) && self@.index_of(id) == i && self@.task(id)
                    == self@.tasks[i as int],
                None => !self@.contains(id),
            },
    {
        let mut i: usize = 0;
        while i < self.tasks.len()
            invariant
                self@.wf(),
                i <= self@.tasks.len(),
                forall|j: int| 0 <= j < i ==> (#[trigger] self@.tasks[j]).comic.id != id,
            decreases self@.tasks.len() - i,
        {
            if self.tasks[i].comic.id == id {
                proof {
                    lemma_lookup(self@, id, i as int);
                }
                return Some(i);
            }
            i = i + 1;
        }
        None
    }

    /// Whether a task is registered for `id`.
    pub fn contains(&self, id: i64) -> (r: bool)
        requires
            self@.wf(),
        ensures
            r == self@.contains(id),
    {
        self.find(id).is_some()
    }

    /// Whether another run can be numbered; false only after 2^64 - 1 submissions.
    pub fn has_serial_left(&self) -> (r: bool)
        ensures
            r == (self@.next_serial < u64::MAX),
    {
        self.next_serial < u64::MAX
    }

    /// Sets the state of the task at `i`, returning or taking its comic permit.
    fn set_state_at(&mut self, i: usize, s: DownloadTaskState)
        requires
            old(self)@.wf(),
            i < old(self)@.tasks.len(),
            s == DownloadTaskState::Downloading && old(self)@.tasks[i as int].state
                != DownloadTaskState::Downloading ==> old(self)@.comic_in_use
                < old(self)@.comic_capacity,
            s == DownloadTaskState::Completed ==> old(self)@.tasks[i as int].downloaded_img_count
                == old(self)@.tasks[i as int].total_img_count && old(self)@.completed.contains(
                old(self)@.tasks[i as int].comic.id,
            ),
        ensures
            final(self)@.wf(),
            final(self)@.tasks == old(self)@.tasks.update(
                i as int,
                with_state(old(self)@.tasks[i as int], s),
            ),
            registry_updated(
                old(self)@,
                final(self)@,
                old(self)@.tasks[i as int].comic.id,
                with_state(old(self)@.tasks[i as int], s),
            ),
            old(self)@.index_of(old(self)@.tasks[i as int].comic.id) == i,
            final(self)@.comic_in_use + downloading_of(old(self)@.tasks[i as int])
                == old(self)@.comic_in_use + downloading_of(
                with_state(old(self)@.tasks[i as int], s),
            ),
            final(self)@.img_in_use == old(self)@.img_in_use,
            final(self)@.next_serial == old(self)@.next_serial,
            same_settings(old(self)@, final(self)@),
    {
        let ghost old_v = self@;
        let was = self.tasks[i].state;
        if was == DownloadTaskState::Downloading && s != DownloadTaskState::Downloading {
            proof {
                lemma_sum_positive(self@.tasks, i as int, |t: DownloadTask| downloading_of(t));
            }
            self.comic_in_use = self.comic_in_use - 1;
        } else if was != DownloadTaskState::Downloading && s == DownloadTaskState::Downloading {
            self.comic_in_use = self.comic_in_use + 1;
        }
        self.tasks[i].state = s;
        proof {
            let t = with_state(old_v.tasks[i as int], s);
            assert(self@.tasks =~= old_v.tasks.update(i as int, t));
            lemma_update_at(old_v, self@, i as int, t);
            lemma_downloading_update(old_v.tasks, i as int, t);
            lemma_fetching_total_update(old_v.tasks, i as int, t);
            lemma_task_facts_after_update(old_v, self@, i as int);
        }
    }

    /// Returns every image permit that the task at `i` holds: its images that
    /// were fetching are queued again.
    fn release_imgs_at(&mut self, i: usize)
        requires
            old(self)@.wf(),
            i < old(self)@.tasks.len(),
        ensures
            final(self)@.wf(),
            final(self)@.tasks == old(self)@.tasks.update(i as int, final(self)@.tasks[i as int]),
            final(self)@.tasks[i as int] == (DownloadTask {
                imgs: final(self)@.tasks[i as int].imgs,
                ..old(self)@.tasks[i as int]
            }),
            final(self)@.tasks[i as int].imgs@ == unfetched(old(self)@.tasks[i as int].imgs@),
            final(self)@.img_in_use + fetching_count(old(self)@.tasks[i as int].imgs@)
                == old(self)@.img_in_use,
            final(self)@.comic_in_use == old(self)@.comic_in_use,
            final(self)@.next_serial == old(self)@.next_serial,
            same_settings(old(self)@, final(self)@),
    {
        let ghost old_v = self@;
        let mut fresh: Vec<ImgState> = Vec::new();
        let mut n: usize = 0;
        let mut k: usize = 0;
        proof {
            lemma_fetching_total_bound(old_v.tasks, i as int);
            assert(old_v.tasks[i as int].imgs@.subrange(0, 0) =~= Seq::<ImgState>::empty());
            lemma_sum_empty(|s: ImgState| fetching_of(s));
        }
        while k < self.tasks[i].imgs.len()
            invariant
                self@ == old_v,
                i < old_v.tasks.len(),
                k <= old_v.tasks[i as int].imgs@.len(),
                fresh@ == unfetched(old_v.tasks[i as int].imgs@.subrange(0, k as int)),
                n == fetching_count(old_v.tasks[i as int].imgs@.subrange(0, k as int)),
                n <= k,
            decreases old_v.tasks[i as int].imgs@.len() - k,
        {
            let ghost imgs = old_v.tasks[i as int].imgs@;
            proof {
                lemma_fetching_prefix(imgs, k + 1);
                assert(imgs.subrange(0, k + 1) =~= imgs.subrange(0, k as int).push(imgs[k as int]));
            }
            let x = self.tasks[i].imgs[k];
            if x == ImgState::Fetching {
                fresh.push(ImgState::Queued);
                n = n + 1;
            } else {
                fresh.push(x);
            }
            proof {
                assert(fresh@ =~= unfetched(imgs.subrange(0, k + 1)));
            }
            k = k + 1;
        }
        proof {
            let imgs = old_v.tasks[i as int].imgs@;
            assert(imgs.subrange(0, imgs.len() as int) =~= imgs);
            lemma_unfetched_counts(imgs);
        }
        self.img_in_use = self.img_in_use - n;
        self.tasks[i].imgs = fresh;
        proof {
            let t = self@.tasks[i as int];
            assert(self@.tasks =~= old_v.tasks.update(i as int, t));
            lemma_update_at(old_v, self@, i as int, t);
            lemma_downloading_update(old_v.tasks, i as int, t);
            lemma_fetching_total_update(old_v.tasks, i as int, t);
            lemma_task_facts_after_update(old_v, self@, i as int);
        }
    }

    /// Stops the task at `i` in state `s`: its comic permit and its image
    /// permits go back.
    fn stop_at(&mut self, i: usize, s: DownloadTaskState)
        requires
            old(self)@.wf(),
            i < old(self)@.tasks.len(),
            s != DownloadTaskState::Downloading,
            s != DownloadTaskState::Completed,
        ensures
            final(self)@.wf(),
            old(self)@.index_of(old(self)@.tasks[i as int].comic.id) == i,
            final(self)@.tasks == old(self)@.tasks.update(i as int, final(self)@.tasks[i as int]),
            final(self)@.tasks[i as int] == (DownloadTask {
                state: s,
                imgs: final(self)@.tasks[i as int].imgs,
                ..old(self)@.tasks[i as int]
            }),
            state_set(
                old(self)@,
                final(self)@,
                old(self)@.tasks[i as int].comic.id,
                s,
                Ok(()),
            ),
    {
        let ghost v0 = self@;
        self.set_state_at(i, s);
        self.release_imgs_at(i);
        proof {
            let t = self@.tasks[i as int];
            assert(self@.tasks =~= v0.tasks.update(i as int, t));
            lemma_update_at(v0, self@, i as int, t);
        }
    }

    /// Sets the state of the task for `id` to `s`, or fails with `NotFound`.
    fn set_state_of(&mut self, id: i64, s: DownloadTaskState) -> (r: Result<(), DownloadError>)
        requires
            old(self)@.wf(),
            s != DownloadTaskState::Downloading,
            s != DownloadTaskState::Completed,
        ensures
            final(self)@.wf(),
            state_set(old(self)@, final(self)@, id, s, r),
    {
        match self.find(id) {
            None => Err(DownloadError::NotFound),
            Some(i) => {
                self.stop_at(i, s);
                Ok(())
            },
        }
    }

    /// Pauses the task for `id`: its comic permit and its image permits go
    /// back, and its images that were fetching are queued again.
    pub fn pause_download_task(&mut self, id: i64) -> (r: Result<(), DownloadError>)
        requires
            old(self)@.wf(),
        ensures
            final(self)@.wf(),
            state_set(old(self)@, final(self)@, id, DownloadTaskState::Paused, r),
    {
        self.set_state_of(id, DownloadTaskState::Paused)
    }

    /// Cancels the task for `id`: its comic permit and its image permits go
    /// back.
    pub fn cancel_download_task(&mut self, id: i64) -> (r: Result<(), DownloadError>)
        requires
            old(self)@.wf(),
        ensures
            final(self)@.wf(),
            state_set(old(self)@, final(self)@, id, DownloadTaskState::Cancelled, r),
    {
        self.set_state_of(id, DownloadTaskState::Cancelled)
    }

    /// Replaces the task at `i` by a fresh run of the comic it holds.
    fn restart_at(&mut self, i: usize)
        requires
            old(self)@.wf(),
            i < old(self)@.tasks.len(),
            is_terminal(old(self)@.tasks[i as int].state),
            old(self)@.next_serial < u64::MAX,
        ensures
            final(self)@.wf(),
            restarted(old(self)@, final(self)@, old(self)@.tasks[i as int].comic),
            old(self)@.index_of(old(self)@.tasks[i as int].comic.id) == i,
            final(self)@.tasks == old(self)@.tasks.update(i as int, final(self)@.tasks[i as int]),
    {
        let ghost old_v = self@;
        let serial = self.next_serial;
        let n_fetching = self.count_fetching(i);
        proof {
            lemma_fetching_total_bound(old_v.tasks, i as int);
        }
        self.img_in_use = self.img_in_use - n_fetching;
        self.next_serial = self.next_serial + 1;
        self.tasks[i].state = DownloadTaskState::Pending;
        self.tasks[i].serial = serial;
        self.tasks[i].ticket = serial;
        self.tasks[i].started = false;
        self.tasks[i].publishing = false;
        self.tasks[i].imgs = Vec::new();
        self.tasks[i].downloaded_img_count = 0;
        self.tasks[i].total_img_count = 0;
        proof {
            let t = self@.tasks[i as int];
            assert(self@.tasks =~= old_v.tasks.update(i as int, t));
            lemma_update_at(old_v, self@, i as int, t);
            lemma_downloading_update(old_v.tasks, i as int, t);
            lemma_fetching_total_update(old_v.tasks, i as int, t);
            lemma_sum_empty(|s: ImgState| fetching_of(s));
            lemma_sum_empty(|s: ImgState| saved_of(s));
            assert(t.imgs@ =~= Seq::<ImgState>::empty());
            lemma_task_facts_after_update(old_v, self@, i as int);
        }
    }

    /// The number of images of the task at `i` that hold an image permit.
    fn count_fetching(&self, i: usize) -> (r: usize)
        requires
            self@.wf(),
            i < self@.tasks.len(),
        ensures
            r == fetching_count(self@.tasks[i as int].imgs@),
    {
        let imgs = &self.tasks[i].imgs;
        let mut n: usize = 0;
        let mut k: usize = 0;
        proof {
            lemma_fetching_total_bound(self@.tasks, i as int);
            assert(imgs@.subrange(0, 0) =~= Seq::<ImgState>::empty());
            lemma_sum_empty(|s: ImgState| fetching_of(s));
        }
        while k < imgs.len()
            invariant
                self@.wf(),
                i < self@.tasks.len(),
                imgs@ == self@.tasks[i as int].imgs@,
                k <= imgs@.len(),
                n == fetching_count(imgs@.subrange(0, k as int)),
                n <= k,
            decreases imgs@.len() - k,
        {
            proof {
                let pre = imgs@.subrange(0, k + 1);
                assert(pre.drop_last() =~= imgs@.subrange(0, k as int));
                lemma_fetching_prefix(imgs@, k + 1);
            }
            if imgs[k] == ImgState::Fetching {
                n = n + 1;
            }
            k = k + 1;
        }
        proof {
            assert(imgs@.subrange(0, imgs@.len() as int) =~= imgs@);
        }
        n
    }

    /// Resumes the task for `id`. A task that has ended is started afresh from
    /// the comic it holds; any other goes back to `Pending` at the end of the
    /// queue for a comic permit.
    pub fn resume_download_task(&mut self, id: i64) -> (r: Result<(), DownloadError>)
        requires
            old(self)@.wf(),
            old(self)@.next_serial < u64::MAX,
        ensures
            final(self)@.wf(),
            r is Err <==> !old(self)@.contains(id),
            r is Err ==> final(self)@ == old(self)@,
            r is Ok && !old(self)@.is_live(id) ==> restarted(
                old(self)@,
                final(self)@,
                old(self)@.task(id).comic,
            ),
            r is Ok && old(self)@.is_live(id) ==> requeued(old(self)@, final(self)@, id),
    {
        match self.find(id) {
            None => Err(DownloadError::NotFound),
            Some(i) => {
                let st = self.tasks[i].state;
                if (st == DownloadTaskState::Cancelled || st == DownloadTaskState::Completed || st
                    == DownloadTaskState::Failed) && !self.tasks[i].publishing {
                    self.restart_at(i);
                } else {
                    let ghost v0 = self@;
                    self.stop_at(i, DownloadTaskState::Pending);
                    let ghost v1 = self@;
                    let ticket = self.next_serial;
                    self.next_serial = self.next_serial + 1;
                    self.tasks[i].ticket = ticket;
                    proof {
                        let t = self@.tasks[i as int];
                        assert(self@.tasks =~= v1.tasks.update(i as int, t));
                        lemma_update_at(v1, self@, i as int, t);
                        lemma_lookup(v1, id, i as int);
                        assert(self@.tasks =~= v0.tasks.update(i as int, t));
                        lemma_update_at(v0, self@, i as int, t);
                        lemma_downloading_update(v1.tasks, i as int, t);
                        lemma_fetching_total_update(v1.tasks, i as int, t);
                        lemma_task_facts_after_update(v1, self@, i as int);
                    }
                }
                Ok(())
            },
        }
    }

    /// Submits `comic` for download. While a task for the same comic is live
    /// this does nothing and returns false; otherwise a fresh task replaces
    /// any ended one and true is returned.
    pub fn create_download_task(&mut self, comic: Comic) -> (created: bool)
        requires
            old(self)@.wf(),
            old(self)@.next_serial < u64::MAX,
        ensures
            final(self)@.wf(),
            created == !old(self)@.is_live(comic.id),
            !created ==> final(self)@ == old(self)@,
            created ==> submitted(old(self)@, final(self)@, comic),
            submit_effect(old(self)@, final(self)@, comic),
    {
        let id = comic.id;
        match self.find(id) {
            Some(i) => {
                let st = self.tasks[i].state;
                if (st == DownloadTaskState::Cancelled || st == DownloadTaskState::Completed || st
                    == DownloadTaskState::Failed) && !self.tasks[i].publishing {
                    let ghost v0 = self@;
                    self.restart_at(i);
                    let ghost v1 = self@;
                    self.tasks[i].comic = comic;
                    proof {
                        let t = self@.tasks[i as int];
                        assert(self@.tasks =~= v1.tasks.update(i as int, t));
                        lemma_update_at(v1, self@, i as int, t);
                        lemma_lookup(v1, id, i as int);
                        assert(self@.tasks =~= v0.tasks.update(i as int, t));
                        lemma_update_at(v0, self@, i as int, t);
                        lemma_downloading_update(v1.tasks, i as int, t);
                        lemma_fetching_total_update(v1.tasks, i as int, t);
                        lemma_task_facts_after_update(v1, self@, i as int);
                    }
                    true
                } else {
                    false
                }
            },
            None => {
                let ghost v0 = self@;
                let serial = self.next_serial;
                let t = DownloadTask {
                    comic,
                    state: DownloadTaskState::Pending,
                    serial,
                    ticket: serial,
                    started: false,
                    publishing: false,
                    imgs: Vec::new(),
                    downloaded_img_count: 0,
                    total_img_count: 0,
                };
                self.next_serial = self.next_serial + 1;
                self.tasks.push(t);
                proof {
                    let t = self@.tasks.last();
                    assert(self@.tasks =~= v0.tasks.push(t));
                    lemma_push(v0, self@, t);
                    lemma_sum_push(v0.tasks, t, |t: DownloadTask| downloading_of(t));
                    lemma_sum_push(v0.tasks, t, |t: DownloadTask| fetching_count(t.imgs@));
                    lemma_sum_empty(|s: ImgState| fetching_of(s));
                    lemma_sum_empty(|s: ImgState| saved_of(s));
                    assert(t.imgs@ =~= Seq::<ImgState>::empty());
                    assert forall|j: int| 0 <= j < self@.tasks.len() implies task_wf(
                        #[trigger] self@.tasks[j],
                    ) by {
                        if j < v0.tasks.len() {
                            assert(self@.tasks[j] == v0.tasks[j]);
                        }
                    }
                    assert forall|j: int|
                        0 <= j < self@.tasks.len() && (#[trigger] self@.tasks[j]).state
                            == DownloadTaskState::Completed implies self@.completed.contains(
                        self@.tasks[j].comic.id,
                    ) by {
                        if j < v0.tasks.len() {
                            assert(self@.tasks[j] == v0.tasks[j]);
                        }
                    }
                    assert forall|j: int| 0 <= j < self@.tasks.len() implies (
                    #[trigger] self@.tasks[j]).serial < self@.next_serial && self@.tasks[j].ticket
                        < self@.next_serial by {
                        if j < v0.tasks.len() {
                            assert(self@.tasks[j] == v0.tasks[j]);
                        }
                    }
                }
                true
            },
        }
    }

    fn first_in_line_at(&self, i: usize) -> (r: bool)
        requires
            self@.wf(),
            i < self@.tasks.len(),
        ensures
            r == first_in_line(self@.tasks, i as int),
    {
        let mine = self.tasks[i].ticket;
        let mut j: usize = 0;
        while j < self.tasks.len()
            invariant
                j <= self@.tasks.len(),
                i < self@.tasks.len(),
                mine == self@.tasks[i as int].ticket,
                forall|q: int|
                    0 <= q < j && (#[trigger] self@.tasks[q]).state == DownloadTaskState::Pending
                        ==> mine <= self@.tasks[q].ticket,
            decreases self@.tasks.len() - j,
        {
            if self.tasks[j].state == DownloadTaskState::Pending && self.tasks[j].ticket < mine {
                return false;
            }
            j = j + 1;
        }
        true
    }

    /// One turn of a comic's coordination loop for run `serial` of `id`. A
    /// pending task takes a comic permit when one is free and no pending task
    /// queued before it; it is then `Downloading`.
    pub fn comic_step(&mut self, id: i64, serial: u64) -> (r: ComicStep)
        requires
            old(self)@.wf(),
        ensures
            final(self)@.wf(),
            r == comic_step_spec(old(self)@, id, serial),
            grants_comic_permit(old(self)@, id, serial) ==> {
                &&& registry_updated(
                    old(self)@,
                    final(self)@,
                    id,
                    with_state(old(self)@.task(id), DownloadTaskState::Downloading),
                )
                &&& final(self)@.comic_in_use == old(self)@.comic_in_use + 1
                &&& final(self)@.img_in_use == old(self)@.img_in_use
                &&& final(self)@.next_serial == old(self)@.next_serial
                &&& same_settings(old(self)@, final(self)@)
            },
            !grants_comic_permit(old(self)@, id, serial) ==> final(self)@ == old(self)@,
    {
        match self.find(id) {
            None => ComicStep::Exit,
            Some(i) => {
                if self.tasks[i].serial != serial {
                    return ComicStep::Exit;
                }
                let st = self.tasks[i].state;
                if st == DownloadTaskState::Cancelled || st == DownloadTaskState::Completed || st
                    == DownloadTaskState::Failed {
                    ComicStep::Exit
                } else if st == DownloadTaskState::Downloading {
                    ComicStep::Run
                } else if st == DownloadTaskState::Paused {
                    ComicStep::Wait
                } else if self.comic_in_use < self.comic_capacity && self.first_in_line_at(i) {
                    self.set_state_at(i, DownloadTaskState::Downloading);
                    ComicStep::Run
                } else {
                    ComicStep::Wait
                }
            },
        }
    }

    /// Sets image `k` of the task at `i` to `x`, returning or taking its image
    /// permit and counting it when it is saved.
    fn set_img_at(&mut self, i: usize, k: usize, x: ImgState)
        requires
            old(self)@.wf(),
            i < old(self)@.tasks.len(),
            k < old(self)@.tasks[i as int].imgs@.len(),
            !img_done(old(self)@.tasks[i as int].imgs@[k as int]),
            x == ImgState::Fetching && old(self)@.tasks[i as int].imgs@[k as int]
                != ImgState::Fetching ==> old(self)@.img_in_use < old(self)@.img_capacity,
        ensures
            final(self)@.wf(),
            img_set(old(self)@, final(self)@, old(self)@.tasks[i as int].comic.id, k as int, x),
            old(self)@.index_of(old(self)@.tasks[i as int].comic.id) == i,
            final(self)@.tasks.len() == old(self)@.tasks.len(),
    {
        let ghost old_v = self@;
        let ghost old_t = self@.tasks[i as int];
        proof {
            lemma_imgs_update(old_t.imgs@, k as int, x);
            lemma_fetching_total_bound(old_v.tasks, i as int);
            lemma_sum_positive(old_t.imgs@, k as int, |s: ImgState| fetching_of(s));
            lemma_saved_le_len(old_t.imgs@.update(k as int, x));
        }
        let was = self.tasks[i].imgs[k];
        if was == ImgState::Fetching && x != ImgState::Fetching {
            self.img_in_use = self.img_in_use - 1;
        } else if was != ImgState::Fetching && x == ImgState::Fetching {
            self.img_in_use = self.img_in_use + 1;
        }
        if x == ImgState::Saved {
            self.tasks[i].downloaded_img_count = self.tasks[i].downloaded_img_count + 1;
        }
        self.tasks[i].imgs.set(k, x);
        proof {
            let t = self@.tasks[i as int];
            assert(t.imgs@ == old_t.imgs@.update(k as int, x));
            assert(self@.tasks =~= old_v.tasks.update(i as int, t));
            lemma_update_at(old_v, self@, i as int, t);
            lemma_downloading_update(old_v.tasks, i as int, t);
            lemma_fetching_total_update(old_v.tasks, i as int, t);
            lemma_task_facts_after_update(old_v, self@, i as int);
        }
    }

    /// One turn of image `k`'s loop for run `serial` of `id`. An image takes an
    /// image permit only while its comic is `Downloading`; it gives the permit
    /// back as soon as its comic is not.
    pub fn img_step(&mut self, id: i64, serial: u64, k: usize) -> (r: ImgStep)
        requires
            old(self)@.wf(),
        ensures
            final(self)@.wf(),
            r == img_step_spec(old(self)@, id, serial, k as int),
            match img_step_change(old(self)@, id, serial, k as int) {
                Some(x) => img_set(old(self)@, final(self)@, id, k as int, x),
                None => final(self)@ == old(self)@,
            },
    {
        match self.find(id) {
            None => ImgStep::Exit,
            Some(i) => {
                if self.tasks[i].serial != serial || k >= self.tasks[i].imgs.len() {
                    return ImgStep::Exit;
                }
                let img = self.tasks[i].imgs[k];
                if img == ImgState::Saved || img == ImgState::Failed {
                    return ImgStep::Exit;
                }
                let st = self.tasks[i].state;
                if st == DownloadTaskState::Downloading {
                    if img == ImgState::Fetching {
                        ImgStep::Fetch
                    } else if self.img_in_use < self.img_capacity {
                        self.set_img_at(i, k, ImgState::Fetching);
                        ImgStep::Fetch
                    } else {
                        ImgStep::Wait
                    }
                } else {
                    if img == ImgState::Fetching {
                        self.set_img_at(i, k, ImgState::Queued);
                    }
                    if st == DownloadTaskState::Pending || st == DownloadTaskState::Paused {
                        ImgStep::Wait
                    } else {
                        ImgStep::Exit
                    }
                }
            },
        }
    }

    /// Reports the outcome of image `k` of run `serial` of `id`: `saved` when
    /// its file was written (or found already present), with `bytes` written.
    /// Only an image holding its permit while its comic is `Downloading` can
    /// report; any other report changes nothing and returns false, and the
    /// image is to be fetched again once it holds a permit.
    pub fn img_finished(&mut self, id: i64, serial: u64, k: usize, saved: bool, bytes: u64) -> (r:
        bool)
        requires
            old(self)@.wf(),
        ensures
            final(self)@.wf(),
            r == img_reportable(old(self)@, id, serial, k as int),
            !r ==> final(self)@ == old(self)@,
            r ==> img_set(
                old(self)@,
                final(self)@.with_bytes(old(self)@.byte_per_sec),
                id,
                k as int,
                if saved {
                    ImgState::Saved
                } else {
                    ImgState::Failed
                },
            ),
            r && saved ==> final(self)@.byte_per_sec == saturating_add(
                old(self)@.byte_per_sec,
                bytes as nat,
            ),
            !saved ==> final(self)@.byte_per_sec == old(self)@.byte_per_sec,
    {
        match self.find(id) {
            None => false,
            Some(i) => {
                if self.tasks[i].serial != serial || k >= self.tasks[i].imgs.len() {
                    return false;
                }
                if self.tasks[i].imgs[k] != ImgState::Fetching || self.tasks[i].state
                    != DownloadTaskState::Downloading {
                    return false;
                }
                if saved {
                    self.set_img_at(i, k, ImgState::Saved);
                    self.byte_per_sec = self.byte_per_sec.saturating_add(bytes);
                } else {
                    self.set_img_at(i, k, ImgState::Failed);
                }
                true
            },
        }
    }

    /// Plans the images of run `serial` of `id` when it is `Downloading`: the
    /// URLs to fetch, in order, with image `k` saved under ordinal `k + 1`. A
    /// comic with more than `MAX_IMAGES` planned images is refused: the task
    /// is then `Failed` and nothing is returned.
    pub fn start_pipeline(&mut self, id: i64, serial: u64) -> (r: Option<Vec<String>>)
        requires
            old(self)@.wf(),
        ensures
            final(self)@.wf(),
            ({
                let v = old(self)@;
                let plan = planned_urls(v.task(id).comic.img_list.0@);
                if !v.is_current(id, serial) || v.task(id).state
                    != DownloadTaskState::Downloading {
                    r is None && final(self)@ == v
                } else if v.task(id).started {
                    r is Some && strings_are(r->0@, plan) && final(self)@ == v
                } else if plan.len() > MAX_IMAGES {
                    r is None && state_set(
                        v,
                        final(self)@,
                        id,
                        DownloadTaskState::Failed,
                        Ok(()),
                    )
                } else {
                    &&& r is Some
                    &&& strings_are(r->0@, plan)
                    &&& planned(v, final(self)@, id, plan.len())
                }
            }),
    {
        let i = match self.find(id) {
            None => {
                return None;
            },
            Some(i) => i,
        };
        if self.tasks[i].serial != serial || self.tasks[i].state
            != DownloadTaskState::Downloading {
            return None;
        }
        let urls = plan_image_urls(&self.tasks[i].comic.img_list.0);
        if self.tasks[i].started {
            return Some(urls);
        }
        if urls.len() > MAX_IMAGES {
            self.stop_at(i, DownloadTaskState::Failed);
            return None;
        }
        let ghost old_v = self@;
        let n = urls.len();
        self.tasks[i].started = true;
        self.tasks[i].imgs = vec![ImgState::Queued; n];
        self.tasks[i].total_img_count = n as u32;
        proof {
            let t = self@.tasks[i as int];
            assert(t.imgs@ =~= Seq::new(n as nat, |k: int| ImgState::Queued));
            assert(self@.tasks =~= old_v.tasks.update(i as int, t));
            lemma_update_at(old_v, self@, i as int, t);
            lemma_downloading_update(old_v.tasks, i as int, t);
            lemma_fetching_total_update(old_v.tasks, i as int, t);
            assert(old_v.tasks[i as int].imgs@.len() == 0);
            assert(old_v.tasks[i as int].downloaded_img_count == 0);
            lemma_sum_zero(t.imgs@, |s: ImgState| fetching_of(s));
            lemma_sum_zero(t.imgs@, |s: ImgState| saved_of(s));
            lemma_sum_empty(|s: ImgState| fetching_of(s));
            assert(old_v.tasks[i as int].imgs@ =~= Seq::<ImgState>::empty());
            lemma_task_facts_after_update(old_v, self@, i as int);
        }
        Some(urls)
    }

    fn all_imgs_done(&self, i: usize) -> (r: bool)
        requires
            self@.wf(),
            i < self@.tasks.len(),
        ensures
            r == forall|k: int|
                0 <= k < self@.tasks[i as int].imgs@.len() ==> img_done(
                    #[trigger] self@.tasks[i as int].imgs@[k],
                ),
    {
        let imgs = &self.tasks[i].imgs;
        let mut k: usize = 0;
        while k < imgs.len()
            invariant
                i < self@.tasks.len(),
                imgs@ == self@.tasks[i as int].imgs@,
                k <= imgs@.len(),
                forall|q: int| 0 <= q < k ==> img_done(#[trigger] imgs@[q]),
            decreases imgs@.len() - k,
        {
            if imgs[k] == ImgState::Queued || imgs[k] == ImgState::Fetching {
                assert(!img_done(imgs@[k as int]));
                return false;
            }
            k = k + 1;
        }
        true
    }

    /// Decides the end of run `serial` of `id` once its images have finished:
    /// publish when every planned image was saved, fail otherwise.
    pub fn finish_images(&mut self, id: i64, serial: u64) -> (r: FinishStep)
        requires
            old(self)@.wf(),
        ensures
            final(self)@.wf(),
            r == finish_spec(old(self)@, id, serial),
            r == FinishStep::Publish ==> {
                &&& registry_updated(
                    old(self)@,
                    final(self)@,
                    id,
                    DownloadTask { publishing: true, ..old(self)@.task(id) },
                )
                &&& final(self)@.comic_in_use == old(self)@.comic_in_use
                &&& final(self)@.img_in_use == old(self)@.img_in_use
                &&& final(self)@.next_serial == old(self)@.next_serial
                &&& same_settings(old(self)@, final(self)@)
            },
            r == FinishStep::Failed ==> state_set(
                old(self)@,
                final(self)@,
                id,
                DownloadTaskState::Failed,
                Ok(()),
            ),
            r != FinishStep::Publish && r != FinishStep::Failed ==> final(self)@ == old(self)@,
    {
        let i = match self.find(id) {
            None => {
                return FinishStep::Abandon;
            },
            Some(i) => i,
        };
        if self.tasks[i].serial != serial {
            return FinishStep::Abandon;
        }
        let st = self.tasks[i].state;
        if st == DownloadTaskState::Cancelled || st == DownloadTaskState::Completed || st
            == DownloadTaskState::Failed {
            return FinishStep::Abandon;
        }
        if st != DownloadTaskState::Downloading || !self.tasks[i].started || !self.all_imgs_done(
            i,
        ) {
            return FinishStep::NotNow;
        }
        if self.tasks[i].downloaded_img_count == self.tasks[i].total_img_count {
            let ghost old_v = self@;
            self.tasks[i].publishing = true;
            proof {
                let t = self@.tasks[i as int];
                assert(self@.tasks =~= old_v.tasks.update(i as int, t));
                lemma_update_at(old_v, self@, i as int, t);
                lemma_downloading_update(old_v.tasks, i as int, t);
                lemma_fetching_total_update(old_v.tasks, i as int, t);
                lemma_task_facts_after_update(old_v, self@, i as int);
            }
            FinishStep::Publish
        } else {
            self.stop_at(i, DownloadTaskState::Failed);
            FinishStep::Failed
        }
    }

    /// Reports whether the final rename of run `serial` of `id` succeeded.
    /// On success the task is `Completed` and the comic is recorded as
    /// published; otherwise it is `Failed`. Returns false, changing nothing,
    /// when no rename of that run was under way.
    pub fn publish_result(&mut self, id: i64, serial: u64, renamed: bool) -> (r: bool)
        requires
            old(self)@.wf(),
        ensures
            final(self)@.wf(),
            r == (old(self)@.is_current(id, serial) && old(self)@.task(id).publishing),
            !r ==> final(self)@ == old(self)@,
            r ==> {
                let s = if renamed {
                    DownloadTaskState::Completed
                } else {
                    DownloadTaskState::Failed
                };
                &&& registry_updated(
                    old(self)@,
                    final(self)@,
                    id,
                    DownloadTask { state: s, publishing: false, ..old(self)@.task(id) },
                )
                &&& final(self)@.comic_in_use + downloading_of(old(self)@.task(id))
                    == old(self)@.comic_in_use
                &&& final(self)@.img_in_use == old(self)@.img_in_use
                &&& final(self)@.next_serial == old(self)@.next_serial
                &&& final(self)@.completed == if renamed {
                    old(self)@.completed.insert(id)
                } else {
                    old(self)@.completed
                }
                &&& final(self)@.published == if renamed {
                    old(self)@.published.insert(id)
                } else {
                    old(self)@.published
                }
            },
    {
        let i = match self.find(id) {
            None => {
                return false;
            },
            Some(i) => i,
        };
        if self.tasks[i].serial != serial || !self.tasks[i].publishing {
            return false;
        }
        let ghost v0 = self@;
        if renamed {
            proof {
                self.completed@ = self.completed@.insert(id);
                self.published@ = self.published@.insert(id);
            }
            self.set_state_at(i, DownloadTaskState::Completed);
        } else {
            self.set_state_at(i, DownloadTaskState::Failed);
        }
        let ghost old_v = self@;
        self.tasks[i].publishing = false;
        proof {
            let t = self@.tasks[i as int];
            assert(self@.tasks =~= old_v.tasks.update(i as int, t));
            lemma_update_at(old_v, self@, i as int, t);
            lemma_downloading_update(old_v.tasks, i as int, t);
            lemma_fetching_total_update(old_v.tasks, i as int, t);
            lemma_task_facts_after_update(old_v, self@, i as int);
            assert(self@.tasks =~= v0.tasks.update(i as int, t));
            lemma_update_at(v0, self@, i as int, t);
        }
        true
    }

    /// Bytes written since the last speed report.
    pub fn byte_per_sec(&self) -> (r: u64)
        ensures
            r == self@.byte_per_sec,
    {
        self.byte_per_sec
    }

    /// The once-a-second speed report: the throughput of the past second,
    /// with the byte counter reset to zero.
    pub fn take_speed(&mut self) -> (r: String)
        requires
            old(self)@.wf(),
        ensures
            final(self)@.wf(),
            r@ == speed_text(old(self)@.byte_per_sec),
            final(self)@ == old(self)@.with_bytes(0),
    {
        let b = self.byte_per_sec;
        self.byte_per_sec = 0;
        format_speed(b)
    }

    /// A `download_task` event for the task of `id`: its state, its comic and
    /// its counters.
    pub fn task_event(&self, id: i64) -> (r: Option<DownloadTaskEvent>)
        requires
            self@.wf(),
        ensures
            r is Some <==> self@.contains(id),
            r is Some ==> {
                &&& r->0.state == self@.task(id).state
                &&& same_comic(r->0.comic, self@.task(id).comic)
                &&& r->0.downloaded_img_count == self@.task(id).downloaded_img_count
                &&& r->0.total_img_count == self@.task(id).total_img_count
            },
    {
        match self.find(id) {
            None => None,
            Some(i) => {
                let t = &self.tasks[i];
                Some(
                    DownloadTaskEvent {
                        state: t.state,
                        comic: t.comic.copy(),
                        downloaded_img_count: t.downloaded_img_count,
                        total_img_count: t.total_img_count,
                    },
                )
            },
        }
    }

    /// The state of the task for `id`, if one is registered.
    pub fn state_of(&self, id: i64) -> (r: Option<DownloadTaskState>)
        requires
            self@.wf(),
        ensures
            r is Some <==> self@.contains(id),
            r is Some ==> r->0 == self@.task(id).state,
    {
        match self.find(id) {
            None => None,
            Some(i) => Some(self.tasks[i].state),
        }
    }

    /// The serial of the current run of the task for `id`, if one is registered.
    pub fn serial_of(&self, id: i64) -> (r: Option<u64>)
        requires
            self@.wf(),
        ensures
            r is Some <==> self@.contains(id),
            r is Some ==> r->0 == self@.task(id).serial,
    {
        match self.find(id) {
            None => None,
            Some(i) => Some(self.tasks[i].serial),
        }
    }

    /// How many tasks are registered.
    pub fn task_count(&self) -> (r: usize)
        ensures
            r == self@.tasks.len(),
    {
        self.tasks.len()
    }

    /// Reports that run `serial` of `id` could not set up on disk (temporary
    /// directory, manifest): a downloading task becomes `Failed`. Returns
    /// false, changing nothing, for a run that is not current or not downloading.
    pub fn setup_failed(&mut self, id: i64, serial: u64) -> (r: bool)
        requires
            old(self)@.wf(),
        ensures
            final(self)@.wf(),
            r == (old(self)@.is_current(id, serial) && old(self)@.task(id).state
                == DownloadTaskState::Downloading),
            r ==> state_set(old(self)@, final(self)@, id, DownloadTaskState::Failed, Ok(())),
            !r ==> final(self)@ == old(self)@,
    {
        match self.find(id) {
            None => false,
            Some(i) => {
                if self.tasks[i].serial != serial || self.tasks[i].state
                    != DownloadTaskState::Downloading {
                    return false;
                }
                self.stop_at(i, DownloadTaskState::Failed);
                true
            },
        }
    }
}

proof fn lemma_fetching_prefix(s: Seq<ImgState>, k: int)
    requires
        0 < k <= s.len(),
    ensures
        fetching_count(s.subrange(0, k)) == fetching_count(s.subrange(0, k - 1)) + fetching_of(
            s[k - 1],
        ),
{
    assert(s.subrange(0, k).drop_last() =~= s.subrange(0, k - 1));
}

/// The outcome of stopping a task in state `s`: `NotFound` exactly when no
/// task is registered for `id`, and then nothing changes; otherwise only that
/// task changes: its state becomes `s`, its comic permit goes back if it held
/// one, and its fetching images are queued again, their permits returned.
pub open spec fn state_set(
    old: ManagerView,
    new: ManagerView,
    id: i64,
    s: DownloadTaskState,
    r: Result<(), DownloadError>,
) -> bool {
    &&& r is Err <==> !old.contains(id)
    &&& r is Err ==> new == old
    &&& r is Ok ==> {
        &&& registry_updated(
            old,
            new,
            id,
            DownloadTask { state: s, imgs: new.task(id).imgs, ..old.task(id) },
        )
        &&& new.task(id).imgs@ == unfetched(old.task(id).imgs@)
        &&& new.comic_in_use + downloading_of(old.task(id)) == old.comic_in_use
        &&& new.img_in_use + fetching_count(old.task(id).imgs@) == old.img_in_use
        &&& new.next_serial == old.next_serial
        &&& same_settings(old, new)
    }
}

/// `imgs` with every fetching image queued again.
pub open spec fn unfetched(imgs: Seq<ImgState>) -> Seq<ImgState> {
    imgs.map_values(
        |x: ImgState|
            if x == ImgState::Fetching {
                ImgState::Queued
            } else {
                x
            },
    )
}

proof fn lemma_unfetched_counts(s: Seq<ImgState>)
    ensures
        fetching_count(unfetched(s)) == 0,
        saved_count(unfetched(s)) == saved_count(s),
        unfetched(s).len() == s.len(),
    decreases s.len(),
{
    if s.len() > 0 {
        lemma_unfetched_counts(s.drop_last());
        assert(unfetched(s).drop_last() =~= unfetched(s.drop_last()));
    }
}

/// `new` holds a fresh run of `comic`, numbered `old.next_serial`, in place of
/// whatever `old` held for its id; the replaced run's image permits go back.
pub open spec fn restarted(old: ManagerView, new: ManagerView, comic: Comic) -> bool {
    &&& registry_updated(old, new, comic.id, new.task(comic.id))
    &&& is_fresh(new.task(comic.id), comic, old.next_serial as u64)
    &&& new.next_serial == old.next_serial + 1
    &&& new.comic_in_use == old.comic_in_use
    &&& old.contains(comic.id) ==> new.img_in_use + fetching_count(old.task(comic.id).imgs@)
        == old.img_in_use
    &&& !old.contains(comic.id) ==> new.img_in_use == old.img_in_use
    &&& same_settings(old, new)
}

/// The result of a submission that created a task.
pub open spec fn submitted(old: ManagerView, new: ManagerView, comic: Comic) -> bool {
    restarted(old, new, comic)
}

/// The live task for `id` is back in `Pending`, last in the queue for a comic
/// permit, having returned the comic and image permits it held.
pub open spec fn requeued(old: ManagerView, new: ManagerView, id: i64) -> bool {
    &&& registry_updated(
        old,
        new,
        id,
        DownloadTask {
            state: DownloadTaskState::Pending,
            ticket: old.next_serial as u64,
            imgs: new.task(id).imgs,
            ..old.task(id)
        },
    )
    &&& new.task(id).imgs@ == unfetched(old.task(id).imgs@)
    &&& new.next_serial == old.next_serial + 1
    &&& new.comic_in_use + downloading_of(old.task(id)) == old.comic_in_use
    &&& new.img_in_use + fetching_count(old.task(id).imgs@) == old.img_in_use
    &&& same_settings(old, new)
}

pub open spec fn saturating_add(a: nat, b: nat) -> nat {
    if a + b > u64::MAX {
        u64::MAX as nat
    } else {
        a + b
    }
}

impl ManagerView {
    pub open spec fn with_bytes(self, b: nat) -> ManagerView {
        ManagerView { byte_per_sec: b, ..self }
    }
}

/// Image `k` of the current run `serial` of `id` exists and is not finished.
pub open spec fn img_pending(v: ManagerView, id: i64, serial: u64, k: int) -> bool {
    &&& v.is_current(id, serial)
    &&& 0 <= k < v.task(id).imgs@.len()
    &&& !img_done(v.task(id).imgs@[k])
}

/// Image `k` of the current run `serial` of `id` holds its permit while the
/// comic is `Downloading`: its outcome can be reported.
pub open spec fn img_reportable(v: ManagerView, id: i64, serial: u64, k: int) -> bool {
    &&& v.is_current(id, serial)
    &&& 0 <= k < v.task(id).imgs@.len()
    &&& v.task(id).imgs@[k] == ImgState::Fetching
    &&& v.task(id).state == DownloadTaskState::Downloading
}

pub open spec fn img_step_spec(v: ManagerView, id: i64, serial: u64, k: int) -> ImgStep {
    if !img_pending(v, id, serial, k) || is_terminal(v.task(id).state) {
        ImgStep::Exit
    } else if v.task(id).state != DownloadTaskState::Downloading {
        ImgStep::Wait
    } else if v.task(id).imgs@[k] == ImgState::Fetching || v.img_in_use < v.img_capacity {
        ImgStep::Fetch
    } else {
        ImgStep::Wait
    }
}

/// The new state of image `k`, if an image step changes it.
pub open spec fn img_step_change(v: ManagerView, id: i64, serial: u64, k: int) -> Option<
    ImgState,
> {
    if !img_pending(v, id, serial, k) {
        None
    } else if v.task(id).state != DownloadTaskState::Downloading {
        if v.task(id).imgs@[k] == ImgState::Fetching {
            Some(ImgState::Queued)
        } else {
            None
        }
    } else if v.task(id).imgs@[k] == ImgState::Queued && v.img_in_use < v.img_capacity {
        Some(ImgState::Fetching)
    } else {
        None
    }
}

/// Only image `k` of the task for `id` changed, to `x`: its permit was taken
/// or returned accordingly, and it counts as downloaded if `x` is `Saved`.
pub open spec fn img_set(old: ManagerView, new: ManagerView, id: i64, k: int, x: ImgState) -> bool {
    &&& registry_updated(
        old,
        new,
        id,
        DownloadTask {
            imgs: new.task(id).imgs,
            downloaded_img_count: (old.task(id).downloaded_img_count + saved_of(x)) as u32,
            ..old.task(id)
        },
    )
    &&& new.task(id).imgs@ == old.task(id).imgs@.update(k, x)
    &&& new.img_in_use + fetching_of(old.task(id).imgs@[k]) == old.img_in_use + fetching_of(x)
    &&& new.comic_in_use == old.comic_in_use
    &&& new.next_serial == old.next_serial
    &&& same_settings(old, new)
}

proof fn lemma_saved_le_len(s: Seq<ImgState>)
    ensures
        saved_count(s) <= s.len(),
    decreases s.len(),
{
    if s.len() > 0 {
        lemma_saved_le_len(s.drop_last());
    }
}

pub open spec fn finish_spec(v: ManagerView, id: i64, serial: u64) -> FinishStep {
    if !v.is_current(id, serial) || is_terminal(v.task(id).state) {
        FinishStep::Abandon
    } else if v.task(id).state != DownloadTaskState::Downloading || !v.task(id).started || exists|
        k: int,
    |
        0 <= k < v.task(id).imgs@.len() && !img_done(#[trigger] v.task(id).imgs@[k]) {
        FinishStep::NotNow
    } else if v.task(id).downloaded_img_count == v.task(id).total_img_count {
        FinishStep::Publish
    } else {
        FinishStep::Failed
    }
}

/// The task for `id` now has `n` planned images, none of them started.
pub open spec fn planned(old: ManagerView, new: ManagerView, id: i64, n: nat) -> bool {
    &&& registry_updated(
        old,
        new,
        id,
        DownloadTask {
            started: true,
            imgs: new.task(id).imgs,
            total_img_count: n as u32,
            ..old.task(id)
        },
    )
    &&& new.task(id).imgs@ == Seq::new(n, |k: int| ImgState::Queued)
    &&& new.comic_in_use == old.comic_in_use
    &&& new.img_in_use == old.img_in_use
    &&& new.next_serial == old.next_serial
    &&& same_settings(old, new)
}

proof fn lemma_sum_zero<A>(s: Seq<A>, f: spec_fn(A) -> nat)
    requires
        forall|i: int| 0 <= i < s.len() ==> f(#[trigger] s[i]) == 0,
    ensures
        sum_of(s, f) == 0,
    decreases s.len(),
{
    if s.len() > 0 {
        assert(f(s[s.len() - 1]) == 0);
        lemma_sum_zero(s.drop_last(), f);
    }
}

/// The strings of `r` spell the sequences of `plan`, in order.
pub open spec fn strings_are(r: Seq<String>, plan: Seq<Seq<char>>) -> bool {
    &&& r.len() == plan.len()
    &&& forall|k: int| 0 <= k < r.len() ==> (#[trigger] r[k])@ == plan[k]
}

pub open spec fn sentinel_name() -> Seq<char> {
    seq!['s', 'h', 'o', 'u', 'c', 'a', 'n', 'g', '.', 'j', 'p', 'g']
}

pub open spec fn https_scheme() -> Seq<char> {
    seq!['h', 't', 't', 'p', 's', ':']
}

/// Whether `url` names the trailing sentinel image, which is never downloaded.
pub open spec fn is_sentinel(url: Seq<char>) -> bool {
    sentinel_name().len() <= url.len() && url.subrange(
        url.len() - sentinel_name().len(),
        url.len() as int,
    ) == sentinel_name()
}

/// The URLs to download for an image list: sentinel entries left out, the
/// `https:` scheme put in front of the others, order kept.
pub open spec fn planned_urls(list: Seq<ImgInImgList>) -> Seq<Seq<char>>
    decreases list.len(),
{
    if list.len() == 0 {
        Seq::empty()
    } else {
        let rest = planned_urls(list.drop_last());
        if is_sentinel(list.last().url@) {
            rest
        } else {
            rest.push(https_scheme() + list.last().url@)
        }
    }
}

/// The URLs to download for an image list, as `planned_urls` describes them.
pub fn plan_image_urls(list: &Vec<ImgInImgList>) -> (r: Vec<String>)
    ensures
        strings_are(r@, planned_urls(list@)),
{
    let sentinel: Vec<char> = vec!['s', 'h', 'o', 'u', 'c', 'a', 'n', 'g', '.', 'j', 'p', 'g'];
    let mut out: Vec<String> = Vec::new();
    let mut k: usize = 0;
    proof {
        assert(list@.subrange(0, 0) =~= Seq::<ImgInImgList>::empty());
    }
    while k < list.len()
        invariant
            k <= list@.len(),
            sentinel@ == sentinel_name(),
            strings_are(out@, planned_urls(list@.subrange(0, k as int))),
        decreases list@.len() - k,
    {
        let url = chars_of(list[k].url.as_str());
        proof {
            let pre = list@.subrange(0, k + 1);
            assert(pre.drop_last() =~= list@.subrange(0, k as int));
            assert(pre.last() == list@[k as int]);
        }
        if !crate::text::ends_with(&url, &sentinel) {
            let mut full: Vec<char> = vec!['h', 't', 't', 'p', 's', ':'];
            let ghost scheme = full@;
            let mut rest = url;
            let ghost tail = rest@;
            full.append(&mut rest);
            let sv = string_of(full.as_slice());
            proof {
                assert(scheme == https_scheme());
                assert(full@ =~= scheme + tail);
            }
            out.push(sv);
        }
        k = k + 1;
    }
    proof {
        assert(list@.subrange(0, list@.len() as int) =~= list@);
    }
    out
}

/// What a subscriber sees on every transition or progress tick of a task.
#[derive(Debug, Clone)]
pub struct DownloadTaskEvent {
    pub state: DownloadTaskState,
    pub comic: Comic,
    pub downloaded_img_count: u32,
    pub total_img_count: u32,
}

/// `b` bytes in hundredths of a megabyte, rounded to nearest, ties to even.
pub open spec fn speed_hundredths(b: nat) -> nat {
    let q = (b * 100) / 1048576;
    let r = (b * 100) % 1048576;
    if 2 * r > 1048576 || (2 * r == 1048576 && q % 2 == 1) {
        q + 1
    } else {
        q
    }
}

/// The text of a speed report for `b` bytes in one second: megabytes with two
/// decimals, then ` MB/s`.
pub open spec fn speed_text(b: nat) -> Seq<char> {
    let h = speed_hundredths(b);
    decimal(h / 100) + seq!['.'] + zero_pad(decimal(h % 100), 2) + seq![' ', 'M', 'B', '/', 's']
}

/// Formats the throughput of `bytes` bytes per second, e.g. `1.50 MB/s`.
pub fn format_speed(bytes: u64) -> (r: String)
    ensures
        r@ == speed_text(bytes as nat),
{
    let num: u128 = bytes as u128 * 100;
    let q: u128 = num / 1048576;
    let rem: u128 = num % 1048576;
    let h: u128 = if 2 * rem > 1048576 || (2 * rem == 1048576 && q % 2 == 1) {
        q + 1
    } else {
        q
    };
    assert(h == speed_hundredths(bytes as nat));
    assert(h <= u64::MAX) by {
        assert(q <= bytes as u128 * 100 / 1048576);
    }
    let whole = (h / 100) as u64;
    let frac = (h % 100) as u64;
    let mut cs = decimal_chars(whole);
    let ghost w = cs@;
    cs.push('.');
    cs.push(digit_to_char(frac / 10));
    cs.push(digit_to_char(frac % 10));
    cs.push(' ');
    cs.push('M');
    cs.push('B');
    cs.push('/');
    cs.push('s');
    proof {
        let two = zero_pad(decimal(frac as nat), 2);
        if frac < 10 {
            assert(decimal(frac as nat) == seq![digit_char(frac as nat)]);
            assert(two =~= seq!['0', digit_char(frac as nat)]);
        } else {
            assert(decimal(frac as nat) == decimal((frac / 10) as nat).push(
                digit_char((frac % 10) as nat),
            ));
            assert(decimal((frac / 10) as nat) == seq![digit_char((frac / 10) as nat)]);
            assert(two =~= seq![digit_char((frac / 10) as nat), digit_char((frac % 10) as nat)]);
        }
        assert(cs@ =~= w + seq!['.'] + two + seq![' ', 'M', 'B', '/', 's']);
    }
    string_of(cs.as_slice())
}

/// The total of a run of speed reports, in hundredths of a megabyte.
pub open spec fn reported_total(bs: Seq<nat>) -> nat
    decreases bs.len(),
{
    if bs.len() == 0 {
        0
    } else {
        reported_total(bs.drop_last()) + speed_hundredths(bs.last())
    }
}

pub open spec fn byte_total(bs: Seq<nat>) -> nat
    decreases bs.len(),
{
    if bs.len() == 0 {
        0
    } else {
        byte_total(bs.drop_last()) + bs.last()
    }
}

/// One report is off by at most half a hundredth of a megabyte.
pub proof fn lemma_speed_rounding(b: nat)
    ensures
        speed_hundredths(b) * 1048576 <= b * 100 + 524288,
        b * 100 <= speed_hundredths(b) * 1048576 + 524288,
{
    let x = (b * 100) as int;
    lemma_fundamental_div_mod(x, 1048576);
    let q = x / 1048576;
    let r = x % 1048576;
    assert(x == 1048576 * q + r);
    assert(0 <= r < 1048576);
}

/// Over N speed reports, one per second, the reported megabytes add up to
/// the bytes delivered divided by 1 048 576, within half a hundredth per report.
pub proof fn lemma_speed_reports_sum(bs: Seq<nat>)
    ensures
        reported_total(bs) * 1048576 <= byte_total(bs) * 100 + bs.len() * 524288,
        byte_total(bs) * 100 <= reported_total(bs) * 1048576 + bs.len() * 524288,
    decreases bs.len(),
{
    if bs.len() > 0 {
        lemma_speed_reports_sum(bs.drop_last());
        lemma_speed_rounding(bs.last());
        assert(reported_total(bs) * 1048576 == reported_total(bs.drop_last()) * 1048576
            + speed_hundredths(bs.last()) * 1048576) by (nonlinear_arith)
            requires
                reported_total(bs) == reported_total(bs.drop_last()) + speed_hundredths(
                    bs.last(),
                ),
        ;
        assert(byte_total(bs) * 100 == byte_total(bs.drop_last()) * 100 + bs.last() * 100)
            by (nonlinear_arith)
            requires
                byte_total(bs) == byte_total(bs.drop_last()) + bs.last(),
        ;
        assert(bs.len() * 524288 == bs.drop_last().len() * 524288 + 524288);
    }
}

/// For every task, the downloaded count never exceeds the planned count, a
/// started run plans every image of its list but the sentinel, and a
/// `Completed` task downloaded every planned image.
pub proof fn lemma_counter_bound(m: ManagerView, id: i64)
    requires
        m.wf(),
        m.contains(id),
    ensures
        m.task(id).downloaded_img_count <= m.task(id).total_img_count,
        m.task(id).started ==> m.task(id).total_img_count as nat == planned_urls(
            m.task(id).comic.img_list.0@,
        ).len(),
        m.task(id).state == DownloadTaskState::Completed ==> m.task(id).downloaded_img_count
            == m.task(id).total_img_count,
{
    let i = m.index_of(id);
    assert(task_wf(m.tasks[i]));
    lemma_saved_le_len(m.tasks[i].imgs@);
}

/// When every image of a downloading run has finished, the run is published
/// exactly when all planned images were saved; otherwise it fails with fewer.
pub proof fn lemma_finish_decides(m: ManagerView, id: i64, serial: u64)
    requires
        m.wf(),
        m.is_current(id, serial),
        m.task(id).state == DownloadTaskState::Downloading,
        m.task(id).started,
        forall|k: int| 0 <= k < m.task(id).imgs@.len() ==> img_done(#[trigger] m.task(id).imgs@[k]),
    ensures
        finish_spec(m, id, serial) == FinishStep::Publish <==> m.task(id).downloaded_img_count
            == m.task(id).total_img_count,
        finish_spec(m, id, serial) == FinishStep::Failed <==> m.task(id).downloaded_img_count
            < m.task(id).total_img_count,
{
    lemma_counter_bound(m, id);
}

/// A comic's final directory is produced only for a run that reached `Completed`.
pub proof fn lemma_no_partial_publication(m: ManagerView, id: i64)
    requires
        m.wf(),
        m.published.contains(id),
    ensures
        m.completed.contains(id),
{
}

/// The tasks in `Downloading` never outnumber the comic permits, nor the
/// images holding a permit the image permits.
pub proof fn lemma_permit_conservation(m: ManagerView)
    requires
        m.wf(),
    ensures
        downloading_count(m.tasks) <= m.comic_capacity,
        fetching_total(m.tasks) <= m.img_capacity,
{
}

/// What a submission of `comic` does to the engine.
pub open spec fn submit_effect(old: ManagerView, new: ManagerView, comic: Comic) -> bool {
    if old.is_live(comic.id) {
        new == old
    } else {
        submitted(old, new, comic)
    }
}

/// Submitting a comic twice leaves one task for it, and the second submission
/// changes nothing.
pub proof fn lemma_idempotent_submit(
    m0: ManagerView,
    m1: ManagerView,
    m2: ManagerView,
    comic: Comic,
)
    requires
        m0.wf(),
        m1.wf(),
        submit_effect(m0, m1, comic),
        submit_effect(m1, m2, comic),
    ensures
        m2 == m1,
        m2.is_live(comic.id),
        forall|i: int, j: int|
            0 <= i < m2.tasks.len() && 0 <= j < m2.tasks.len() && #[trigger] m2.tasks[i].comic.id
                == comic.id && #[trigger] m2.tasks[j].comic.id == comic.id ==> i == j,
{
}

} // verus!
