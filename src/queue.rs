//! The job queue and the life cycle of each job in it.
use vstd::prelude::*;
use vstd::set_lib::{lemma_int_range, lemma_len_subset, set_int_range};
use crate::audio::AudioFormat;
use crate::piper::copy_opt;

verus! {

/// Where a job stands. `Pending` jobs wait; `advance_next` moves the first
/// of them to `Processing`, and the synthesis outcome to `Completed` or
/// `Failed`. Removing a pending job cancels it.
#[derive(Debug, Clone, Copy, PartialEq, Eq, Structural)]
pub enum QueueStatus {
    Pending,
    Processing,
    Completed,
    Failed,
    Cancelled,
}

/// One text-to-speech job. `rate` is the speed in thousandths (1000 is normal).
pub struct QueueItem {
    pub id: u128,
    pub title: String,
    pub text: String,
    pub voice: String,
    pub rate: u32,
    pub format: AudioFormat,
    pub status: QueueStatus,
    pub output: Option<String>,
}

/// What a caller submits; absent fields take their defaults.
pub struct NewQueueItem {
    pub title: String,
    pub text: String,
    pub voice: Option<String>,
    pub rate: Option<u32>,
    pub format: Option<AudioFormat>,
}

/// Errors of queue operations.
#[derive(Debug, Clone, Copy, PartialEq, Eq, Structural)]
pub enum QueueError {
    NoPendingItems,
}

/// The jobs in submission order. They are held in a `Vec` rather than a
/// `VecDeque` because jobs are updated in place by position (claiming,
/// finishing, exporting), and vstd specifies no in-place update for
/// `VecDeque`; jobs are only ever appended, so a `Vec` loses nothing.
pub struct JobQueue {
    items: Vec<QueueItem>,
    issued: Vec<u128>,
}

/// The default speed: normal, in thousandths.
pub const DEFAULT_RATE: u32 = 1000;

pub open spec fn is_terminal(s: QueueStatus) -> bool {
    s == QueueStatus::Completed || s == QueueStatus::Failed || s == QueueStatus::Cancelled
}

/// The status changes the life cycle allows (staying put included).
pub open spec fn allowed_transition(a: QueueStatus, b: QueueStatus) -> bool {
    a == b || (a == QueueStatus::Pending && b == QueueStatus::Processing) || (a
        == QueueStatus::Processing && b == QueueStatus::Completed) || (a == QueueStatus::Processing
        && b == QueueStatus::Failed)
}

/// Every job present before and after a change moved along the life cycle.
pub open spec fn follows_life_cycle(before: Seq<QueueItem>, after: Seq<QueueItem>) -> bool {
    forall|i: int, j: int|
        0 <= i < before.len() && 0 <= j < after.len() && (#[trigger] before[i]).id == (#[trigger] after[j]).id
            ==> allowed_transition(before[i].status, after[j].status)
}

pub open spec fn ids_unique(s: Seq<QueueItem>) -> bool {
    forall|i: int, j: int| 0 <= i < s.len() && 0 <= j < s.len() && i != j ==> (#[trigger] s[i]).id != (#[trigger] s[j]).id
}

pub open spec fn has_id(s: Seq<QueueItem>, id: u128) -> bool {
    exists|i: int| 0 <= i < s.len() && (#[trigger] s[i]).id == id
}

/// The integer `c` is among the ids handed out.
pub open spec fn id_taken(s: Seq<u128>, c: int) -> bool {
    s.contains(c as u128)
}

pub open spec fn has_pending(s: Seq<QueueItem>) -> bool {
    exists|i: int| 0 <= i < s.len() && (#[trigger] s[i]).status == QueueStatus::Pending
}

/// `i` is the earliest pending job of `s`.
pub open spec fn is_first_pending(s: Seq<QueueItem>, i: int) -> bool {
    &&& 0 <= i < s.len()
    &&& s[i].status == QueueStatus::Pending
    &&& forall|j: int| 0 <= j < i ==> (#[trigger] s[j]).status != QueueStatus::Pending
}

/// A job with a new status.
pub open spec fn with_status(x: QueueItem, st: QueueStatus) -> QueueItem {
    QueueItem { status: st, ..x }
}

/// The queue after its earliest pending job, at `i`, is claimed.
pub open spec fn claimed(s: Seq<QueueItem>, i: int) -> Seq<QueueItem> {
    s.update(i, with_status(s[i], QueueStatus::Processing))
}

/// The job a submission creates, given its id and the engine's default voice.
pub open spec fn created_from(new_item: NewQueueItem, id: u128, default_voice: Seq<char>, x: QueueItem) -> bool {
    &&& x.id == id
    &&& x.title@ == new_item.title@
    &&& x.text@ == new_item.text@
    &&& x.voice@ == (match new_item.voice {
        Some(v) => v@,
        None => default_voice,
    })
    &&& x.rate == (match new_item.rate {
        Some(r) => r,
        None => DEFAULT_RATE,
    })
    &&& x.format == (match new_item.format {
        Some(f) => f,
        None => AudioFormat::Wav,
    })
    &&& x.status == QueueStatus::Pending
    &&& x.output is None
}

/// Relies on `uuid::Uuid::new_v4`: a random identifier, read as an integer.
/// Nothing is promised of its value.
#[verifier::external_body]
fn random_id() -> (r: u128) {
    uuid::Uuid::new_v4().as_u128()
}

impl QueueItem {
    /// A field-by-field copy.
    pub fn duplicate(&self) -> (r: QueueItem)
        ensures
            r == *self,
    {
        QueueItem {
            id: self.id,
            title: self.title.clone(),
            text: self.text.clone(),
            voice: self.voice.clone(),
            rate: self.rate,
            format: self.format,
            status: self.status,
            output: copy_opt(&self.output),
        }
    }
}

proof fn lemma_some_small_id_free(s: Seq<u128>)
    requires
        s.len() <= usize::MAX,
    ensures
        exists|c: int| 0 <= c <= s.len() && !#[trigger] id_taken(s, c),
{
    if forall|c: int| 0 <= c <= s.len() ==> #[trigger] id_taken(s, c) {
        let ids = s.map_values(|x: u128| x as int);
        ids.lemma_cardinality_of_set();
        lemma_int_range(0, s.len() as int + 1);
        assert forall|c: int| set_int_range(0, s.len() as int + 1).contains(c) implies ids.to_set().contains(c) by {
            assert(id_taken(s, c));
            let i = choose|i: int| 0 <= i < s.len() && s[i] == c as u128;
            assert(ids[i] == c);
        }
        lemma_len_subset(set_int_range(0, s.len() as int + 1), ids.to_set());
        assert(false);
    }
}

impl JobQueue {
    /// The jobs, in submission order.
    pub closed spec fn view(&self) -> Seq<QueueItem> {
        self.items@
    }

    /// Every id handed out so far, queued or not.
    pub closed spec fn issued(&self) -> Seq<u128> {
        self.issued@
    }

    /// The queue's invariant: ids are unique, each was recorded when handed
    /// out, and a completed job has an output.
    pub open spec fn wf(&self) -> bool {
        &&& ids_unique(self.view())
        &&& forall|i: int| 0 <= i < self.view().len() ==> self.issued().contains((#[trigger] self.view()[i]).id)
        &&& forall|i: int|
            0 <= i < self.view().len() && (#[trigger] self.view()[i]).status == QueueStatus::Completed
                ==> self.view()[i].output is Some
    }

    pub fn new() -> (r: JobQueue)
        ensures
            r.wf(),
            r.view().len() == 0,
            r.issued().len() == 0,
    {
        JobQueue { items: Vec::new(), issued: Vec::new() }
    }

    pub fn len(&self) -> (r: usize)
        ensures
            r == self.view().len(),
    {
        self.items.len()
    }

    pub fn is_empty(&self) -> (r: bool)
        ensures
            r == (self.view().len() == 0),
    {
        self.items.len() == 0
    }

    /// The position of the job with this id, if there is one.
    pub fn position(&self, id: u128) -> (r: Option<usize>)
        ensures
            match r {
                Some(i) => i < self.view().len() && self.view()[i as int].id == id,
                None => !has_id(self.view(), id),
            },
    {
        let mut i: usize = 0;
        while i < self.items.len()
            invariant
                i <= self.items@.len(),
                forall|k: int| 0 <= k < i ==> (#[trigger] self.items@[k]).id != id,
            decreases self.items@.len() - i,
        {
            if self.items[i].id == id {
                return Some(i);
            }
            i = i + 1;
        }
        None
    }

    /// Whether this id was ever handed out.
    pub fn was_issued(&self, id: u128) -> (r: bool)
        ensures
            r == self.issued().contains(id),
    {
        let mut i: usize = 0;
        while i < self.issued.len()
            invariant
                i <= self.issued@.len(),
                forall|k: int| 0 <= k < i ==> self.issued@[k] != id,
            decreases self.issued@.len() - i,
        {
            if self.issued[i] == id {
                return true;
            }
            i = i + 1;
        }
        false
    }

    /// An id never handed out before: `candidate` when it is new, else the
    /// smallest new integer.
    pub fn fresh_id(&self, candidate: u128) -> (r: u128)
        requires
            self.wf(),
        ensures
            !self.issued().contains(r),
            !has_id(self.view(), r),
            !self.issued().contains(candidate) ==> r == candidate,
    {
        let r = self.fresh_id_among_issued(candidate);
        proof {
            if has_id(self.view(), r) {
                let i = choose|i: int| 0 <= i < self.view().len() && (#[trigger] self.view()[i]).id == r;
                assert(self.issued().contains(self.view()[i].id));
            }
        }
        r
    }

    fn fresh_id_among_issued(&self, candidate: u128) -> (r: u128)
        ensures
            !self.issued().contains(r),
            !self.issued().contains(candidate) ==> r == candidate,
    {
        if !self.was_issued(candidate) {
            return candidate;
        }
        let n = self.issued.len();
        proof {
            lemma_some_small_id_free(self.issued());
        }
        let mut c: usize = 0;
        while c < n && self.was_issued(c as u128)
            invariant
                n == self.issued().len(),
                c <= n,
                forall|k: int| 0 <= k < c ==> #[trigger] id_taken(self.issued(), k),
                exists|c: int| 0 <= c <= n && !#[trigger] id_taken(self.issued(), c),
            decreases n - c,
        {
            c = c + 1;
        }
        if c == n && self.was_issued(c as u128) {
            proof {
                let w = choose|w: int| 0 <= w <= n && !#[trigger] id_taken(self.issued(), w);
                assert(id_taken(self.issued(), w));
            }
        }
        c as u128
    }

    /// Appends one job per new item, in order, each with a fresh id and the
    /// defaults for what the item leaves out; returns copies of them.
    pub fn submit(&mut self, new_items: Vec<NewQueueItem>, default_voice: &str) -> (r: Vec<QueueItem>)
        requires
            old(self).wf(),
        ensures
            final(self).wf(),
            final(self).view() == old(self).view() + r@,
            r@.len() == new_items@.len(),
            forall|k: int| 0 <= k < r@.len() ==> created_from(new_items@[k], r@[k].id, default_voice@, #[trigger] r@[k]),
            forall|k: int| 0 <= k < r@.len() ==> !has_id(old(self).view(), (#[trigger] r@[k]).id),
            forall|k: int| 0 <= k < r@.len() ==> !old(self).issued().contains((#[trigger] r@[k]).id),
            final(self).issued() == old(self).issued() + r@.map_values(|x: QueueItem| x.id),
            follows_life_cycle(old(self).view(), final(self).view()),
    {
        let ghost start = self.items@;
        let ghost start_issued = self.issued@;
        let mut created: Vec<QueueItem> = Vec::new();
        let mut new_items = new_items;
        let ghost all_specs = new_items@;
        let mut k: usize = 0;
        let total = new_items.len();
        while k < total
            invariant
                total == all_specs.len(),
                k <= total,
                self.wf(),
                self.items@ == start + created@,
                created@.len() == k,
                forall|t: int| 0 <= t < k ==> created_from(all_specs[t], created@[t].id, default_voice@, #[trigger] created@[t]),
                forall|t: int| 0 <= t < k ==> !has_id(start, (#[trigger] created@[t]).id),
                forall|t: int| 0 <= t < k ==> !start_issued.contains((#[trigger] created@[t]).id),
                self.issued@ == start_issued + created@.map_values(|x: QueueItem| x.id),
                new_items@ == all_specs,
            decreases total - k,
        {
            let new_item = &new_items[k];
            let id = self.fresh_id(random_id());
            let item = QueueItem {
                id,
                title: new_item.title.clone(),
                text: new_item.text.clone(),
                voice: match &new_item.voice {
                    Some(v) => v.clone(),
                    None => String::from_str(default_voice),
                },
                rate: match new_item.rate {
                    Some(r) => r,
                    None => DEFAULT_RATE,
                },
                format: match new_item.format {
                    Some(f) => f,
                    None => AudioFormat::Wav,
                },
                status: QueueStatus::Pending,
                output: None,
            };
            let ghost before = self.items@;
            let ghost before_issued = self.issued@;
            created.push(item.duplicate());
            self.items.push(item);
            self.issued.push(id);
            proof {
                assert(self.issued@ =~= start_issued + created@.map_values(|x: QueueItem| x.id));
                assert forall|t: int| 0 <= t < k + 1 implies !start_issued.contains((#[trigger] created@[t]).id) by {
                    if t == k {
                        if start_issued.contains(id) {
                            let w = choose|w: int| 0 <= w < start_issued.len() && start_issued[w] == id;
                            assert(before_issued[w] == id);
                        }
                    }
                }
                assert forall|a: int| 0 <= a < self.items@.len() implies self.issued@.contains((#[trigger] self.items@[a]).id) by {
                    if a == before.len() {
                        assert(self.issued@[before_issued.len() as int] == id);
                    } else {
                        assert(self.items@[a] == before[a]);
                        assert(before_issued.contains(before[a].id));
                        let w = choose|w: int| 0 <= w < before_issued.len() && before_issued[w] == before[a].id;
                        assert(self.issued@[w] == before[a].id);
                    }
                }
                assert forall|t: int| 0 <= t < k + 1 implies !has_id(start, (#[trigger] created@[t]).id) by {
                        if t == k {
                        if has_id(start, id) {
                            let w = choose|w: int| 0 <= w < start.len() && (#[trigger] start[w]).id == id;
                            assert(before[w].id == id);
                        }
                    }
                }
                assert forall|a: int, b: int|
                    0 <= a < self.items@.len() && 0 <= b < self.items@.len() && a != b implies (#[trigger] self.items@[a]).id
                        != (#[trigger] self.items@[b]).id by {
                    if a == before.len() {
                        assert(self.items@[b] == before[b]);
                    } else if b == before.len() {
                        assert(self.items@[a] == before[a]);
                    } else {
                        assert(self.items@[a] == before[a]);
                        assert(self.items@[b] == before[b]);
                    }
                }
            }
            k = k + 1;
        }
        proof {
            assert forall|i: int, j: int|
                0 <= i < start.len() && 0 <= j < self.items@.len() && (#[trigger] start[i]).id == (#[trigger] self.items@[j]).id
                    implies allowed_transition(start[i].status, self.items@[j].status) by {
                if j >= start.len() {
                    assert(created@[j - start.len()] == self.items@[j]);
                    assert(has_id(start, created@[j - start.len()].id));
                } else {
                    assert(self.items@[j] == start[j]);
                    assert(i == j);
                }
            }
        }
        created
    }

    /// Removes the job with this id, whatever its status; nothing happens
    /// when no job has it.
    pub fn remove(&mut self, id: u128)
        requires
            old(self).wf(),
        ensures
            final(self).wf(),
            final(self).issued() == old(self).issued(),
            !has_id(final(self).view(), id),
            has_id(old(self).view(), id) ==> exists|i: int|
                0 <= i < old(self).view().len() && old(self).view()[i].id == id && final(self).view()
                    == old(self).view().remove(i),
            !has_id(old(self).view(), id) ==> final(self).view() == old(self).view(),
            follows_life_cycle(old(self).view(), final(self).view()),
    {
        let ghost start = self.items@;
        match self.position(id) {
            Some(i) => {
                self.items.remove(i);
                proof {
                    assert forall|a: int| 0 <= a < self.items@.len() implies (#[trigger] self.items@[a]).id != id by {
                        if a < i {
                            assert(self.items@[a] == start[a]);
                        } else {
                            assert(self.items@[a] == start[a + 1]);
                        }
                    }
                    assert forall|a: int, b: int|
                        0 <= a < self.items@.len() && 0 <= b < self.items@.len() && a != b implies (#[trigger] self.items@[a]).id
                            != (#[trigger] self.items@[b]).id by {
                        let a2 = if a < i { a } else { a + 1 };
                        let b2 = if b < i { b } else { b + 1 };
                        assert(self.items@[a] == start[a2]);
                        assert(self.items@[b] == start[b2]);
                    }
                    assert forall|a: int| 0 <= a < self.items@.len() && (#[trigger] self.items@[a]).status == QueueStatus::Completed
                        implies self.items@[a].output is Some by {
                        let a2 = if a < i { a } else { a + 1 };
                        assert(self.items@[a] == start[a2]);
                    }
                    assert forall|x: int, j: int|
                        0 <= x < start.len() && 0 <= j < self.items@.len() && (#[trigger] start[x]).id == (#[trigger] self.items@[j]).id
                            implies allowed_transition(start[x].status, self.items@[j].status) by {
                        let j2 = if j < i { j } else { j + 1 };
                        assert(self.items@[j] == start[j2]);
                        assert(x == j2);
                    }
                }
            },
            None => {
                proof {
                    assert forall|x: int, j: int|
                        0 <= x < start.len() && 0 <= j < self.items@.len() && (#[trigger] start[x]).id == (#[trigger] self.items@[j]).id
                            implies allowed_transition(start[x].status, self.items@[j].status) by {
                        assert(x == j);
                    }
                }
            },
        }
    }

    /// Removes every job.
    pub fn clear(&mut self)
        ensures
            final(self).wf(),
            final(self).issued() == old(self).issued(),
            final(self).view().len() == 0,
            follows_life_cycle(old(self).view(), final(self).view()),
    {
        self.items.clear();
    }

    /// A copy of every job, in submission order.
    pub fn list_all(&self) -> (r: Vec<QueueItem>)
        ensures
            r@ == self.view(),
    {
        let mut r: Vec<QueueItem> = Vec::new();
        let mut i: usize = 0;
        while i < self.items.len()
            invariant
                i <= self.items@.len(),
                r@ == self.items@.subrange(0, i as int),
            decreases self.items@.len() - i,
        {
            r.push(self.items[i].duplicate());
            i = i + 1;
        }
        assert(r@ =~= self.items@);
        r
    }

    /// A copy of the job with this id.
    pub fn find(&self, id: u128) -> (r: Option<QueueItem>)
        ensures
            match r {
                Some(x) => x.id == id && exists|i: int| 0 <= i < self.view().len() && self.view()[i] == x,
                None => !has_id(self.view(), id),
            },
    {
        match self.position(id) {
            Some(i) => Some(self.items[i].duplicate()),
            None => None,
        }
    }
}


impl JobQueue {
    /// Claims the earliest pending job: marks it `Processing` and returns a
    /// copy of it. With no pending job the queue is left as it is.
    pub fn advance_next(&mut self) -> (r: Result<QueueItem, QueueError>)
        requires
            old(self).wf(),
        ensures
            final(self).wf(),
            final(self).issued() == old(self).issued(),
            follows_life_cycle(old(self).view(), final(self).view()),
            match r {
                Ok(x) => exists|i: int|
                    is_first_pending(old(self).view(), i) && final(self).view() == claimed(old(self).view(), i)
                        && x == final(self).view()[i],
                Err(e) => e == QueueError::NoPendingItems && !has_pending(old(self).view())
                    && final(self).view() == old(self).view(),
            },
    {
        let ghost start = self.items@;
        let mut i: usize = 0;
        while i < self.items.len() && self.items[i].status != QueueStatus::Pending
            invariant
                i <= self.items@.len(),
                self.items@ == start,
                forall|j: int| 0 <= j < i ==> (#[trigger] self.items@[j]).status != QueueStatus::Pending,
            decreases self.items@.len() - i,
        {
            i = i + 1;
        }
        if i == self.items.len() {
            proof {
                assert forall|follow: int, j: int|
                    0 <= follow < start.len() && 0 <= j < start.len() && (#[trigger] start[follow]).id == (#[trigger] start[j]).id
                        implies allowed_transition(start[follow].status, start[j].status) by {
                    assert(follow == j);
                }
            }
            return Err(QueueError::NoPendingItems);
        }
        let mut item = self.items[i].duplicate();
        item.status = QueueStatus::Processing;
        let copy = item.duplicate();
        self.items.set(i, item);
        proof {
            assert(self.items@ =~= claimed(start, i as int));
            assert forall|a: int, b: int|
                0 <= a < self.items@.len() && 0 <= b < self.items@.len() && a != b implies (#[trigger] self.items@[a]).id
                    != (#[trigger] self.items@[b]).id by {
                assert(self.items@[a].id == start[a].id);
                assert(self.items@[b].id == start[b].id);
            }
            assert forall|x: int, j: int|
                0 <= x < start.len() && 0 <= j < self.items@.len() && (#[trigger] start[x]).id == (#[trigger] self.items@[j]).id
                    implies allowed_transition(start[x].status, self.items@[j].status) by {
                assert(self.items@[j].id == start[j].id);
                assert(x == j);
            }
        }
        Ok(copy)
    }

    /// Records the outcome of synthesizing the job with this id: `Completed`
    /// with its output path on success, `Failed` with no output otherwise.
    /// Only a job in
    /// `Processing` changes; an absent id changes nothing.
    pub fn finish(&mut self, id: u128, outcome: Option<String>)
        requires
            old(self).wf(),
        ensures
            final(self).wf(),
            final(self).issued() == old(self).issued(),
            follows_life_cycle(old(self).view(), final(self).view()),
            final(self).view().len() == old(self).view().len(),
            forall|i: int|
                0 <= i < old(self).view().len() ==> {
                    let x = #[trigger] old(self).view()[i];
                    final(self).view()[i] == if x.id == id && x.status == QueueStatus::Processing {
                        match outcome {
                            Some(p) => QueueItem { status: QueueStatus::Completed, output: Some(p), ..x },
                            None => QueueItem { status: QueueStatus::Failed, output: None, ..x },
                        }
                    } else {
                        x
                    }
                },
    {
        let ghost start = self.items@;
        match self.position(id) {
            Some(i) => {
                if self.items[i].status == QueueStatus::Processing {
                    let mut item = self.items[i].duplicate();
                    match outcome {
                        Some(p) => {
                            item.status = QueueStatus::Completed;
                            item.output = Some(p);
                        },
                        None => {
                            item.status = QueueStatus::Failed;
                            item.output = None;
                        },
                    }
                    self.items.set(i, item);
                }
                proof {
                    assert forall|a: int| 0 <= a < start.len() && a != i implies self.items@[a] == start[a] by {}
                    assert forall|a: int, b: int|
                        0 <= a < self.items@.len() && 0 <= b < self.items@.len() && a != b implies (#[trigger] self.items@[a]).id
                            != (#[trigger] self.items@[b]).id by {
                        assert(self.items@[a].id == start[a].id);
                        assert(self.items@[b].id == start[b].id);
                    }
                    assert forall|x: int, j: int|
                        0 <= x < start.len() && 0 <= j < self.items@.len() && (#[trigger] start[x]).id == (#[trigger] self.items@[j]).id
                            implies allowed_transition(start[x].status, self.items@[j].status) by {
                        assert(self.items@[j].id == start[j].id);
                        assert(x == j);
                    }
                    assert forall|a: int| 0 <= a < self.items@.len() && (#[trigger] self.items@[a]).status == QueueStatus::Completed
                        implies self.items@[a].output is Some by {
                        if a != i {
                            assert(self.items@[a] == start[a]);
                        }
                    }
                }
            },
            None => {
                proof {
                    assert forall|x: int, j: int|
                        0 <= x < start.len() && 0 <= j < start.len() && (#[trigger] start[x]).id == (#[trigger] start[j]).id
                            implies allowed_transition(start[x].status, start[j].status) by {
                        assert(x == j);
                    }
                }
            },
        }
    }

    /// Records a finished export of the job with this id: its output path
    /// and format change, its status does not. An absent id changes nothing.
    pub fn record_export(&mut self, id: u128, output: String, format: AudioFormat)
        requires
            old(self).wf(),
        ensures
            final(self).wf(),
            final(self).issued() == old(self).issued(),
            follows_life_cycle(old(self).view(), final(self).view()),
            final(self).view().len() == old(self).view().len(),
            forall|i: int|
                0 <= i < old(self).view().len() ==> {
                    let x = #[trigger] old(self).view()[i];
                    final(self).view()[i] == if x.id == id {
                        QueueItem { output: Some(output), format, ..x }
                    } else {
                        x
                    }
                },
    {
        let ghost start = self.items@;
        match self.position(id) {
            Some(i) => {
                let mut item = self.items[i].duplicate();
                item.output = Some(output);
                item.format = format;
                self.items.set(i, item);
                proof {
                    assert forall|a: int, b: int|
                        0 <= a < self.items@.len() && 0 <= b < self.items@.len() && a != b implies (#[trigger] self.items@[a]).id
                            != (#[trigger] self.items@[b]).id by {
                        assert(self.items@[a].id == start[a].id);
                        assert(self.items@[b].id == start[b].id);
                    }
                    assert forall|x: int, j: int|
                        0 <= x < start.len() && 0 <= j < self.items@.len() && (#[trigger] start[x]).id == (#[trigger] self.items@[j]).id
                            implies allowed_transition(start[x].status, self.items@[j].status) by {
                        assert(self.items@[j].id == start[j].id);
                        assert(x == j);
                    }
                    assert forall|a: int| 0 <= a < self.items@.len() && (#[trigger] self.items@[a]).status == QueueStatus::Completed
                        implies self.items@[a].output is Some by {
                        if a != i {
                            assert(self.items@[a] == start[a]);
                        }
                    }
                }
            },
            None => {
                proof {
                    assert forall|x: int, j: int|
                        0 <= x < start.len() && 0 <= j < start.len() && (#[trigger] start[x]).id == (#[trigger] start[j]).id
                            implies allowed_transition(start[x].status, start[j].status) by {
                        assert(x == j);
                    }
                }
            },
        }
    }
}

/// Jobs leave `Pending` in submission order: once the earliest pending job
/// is claimed, the next one claimed stands after it in the queue.
pub proof fn lemma_claims_follow_submission_order(s: Seq<QueueItem>, i: int, next: int)
    requires
        is_first_pending(s, i),
        is_first_pending(claimed(s, i), next),
    ensures
        i < next,
{
    if next < i {
        assert(claimed(s, i)[next] == s[next]);
    }
}

/// Claiming is exclusive: with exactly one pending job, the first claim
/// takes it and a second claim finds nothing pending.
pub proof fn lemma_single_pending_claimed_once(s: Seq<QueueItem>, i: int)
    requires
        0 <= i < s.len(),
        s[i].status == QueueStatus::Pending,
        forall|j: int| 0 <= j < s.len() && j != i ==> (#[trigger] s[j]).status != QueueStatus::Pending,
    ensures
        is_first_pending(s, i),
        !has_pending(claimed(s, i)),
{
    if has_pending(claimed(s, i)) {
        let j = choose|j: int| 0 <= j < s.len() && (#[trigger] claimed(s, i)[j]).status == QueueStatus::Pending;
        assert(claimed(s, i)[j].status == QueueStatus::Pending);
    }
}

/// A terminal status is never left: the only move the life cycle allows
/// out of `Completed`, `Failed` or `Cancelled` is staying put.
pub proof fn lemma_terminal_status_is_final(a: QueueStatus, b: QueueStatus)
    requires
        is_terminal(a),
        allowed_transition(a, b),
    ensures
        b == a,
{
}

/// Two changes that each follow the life cycle, on a job present
/// throughout, compose to a change from a terminal status to itself.
pub proof fn lemma_terminal_job_stays(
    s1: Seq<QueueItem>,
    s2: Seq<QueueItem>,
    s3: Seq<QueueItem>,
    i: int,
    j: int,
    k: int,
)
    requires
        follows_life_cycle(s1, s2),
        follows_life_cycle(s2, s3),
        0 <= i < s1.len(),
        0 <= j < s2.len(),
        0 <= k < s3.len(),
        s1[i].id == s2[j].id,
        s2[j].id == s3[k].id,
        is_terminal(s1[i].status),
    ensures
        s3[k].status == s1[i].status,
{
    assert(allowed_transition(s1[i].status, s2[j].status));
    assert(allowed_transition(s2[j].status, s3[k].status));
}

/// Submitting a job and then removing it by its id gives back the queue
/// as it was.
pub proof fn lemma_submit_then_remove_restores(before: Seq<QueueItem>, x: QueueItem, i: int)
    requires
        !has_id(before, x.id),
        0 <= i < before.len() + 1,
        (before + seq![x])[i].id == x.id,
    ensures
        (before + seq![x]).remove(i) == before,
{
    if i < before.len() {
        assert((before + seq![x])[i] == before[i]);
    }
    assert((before + seq![x]).remove(i) =~= before);
}

/// Removing another job does not change which job is claimed next.
pub proof fn lemma_remove_keeps_next_claim(s: Seq<QueueItem>, i: int, gone: int)
    requires
        is_first_pending(s, i),
        0 <= gone < s.len(),
        gone != i,
    ensures
        is_first_pending(s.remove(gone), if gone < i { i - 1 } else { i }),
{
    let t = s.remove(gone);
    let ni = if gone < i { i - 1 } else { i };
    assert(t[ni] == s[i]);
    assert forall|j: int| 0 <= j < ni implies (#[trigger] t[j]).status != QueueStatus::Pending by {
        if j < gone {
            assert(t[j] == s[j]);
        } else {
            assert(t[j] == s[j + 1]);
        }
    }
}

/// Submitting more jobs does not change which job is claimed next.
pub proof fn lemma_submit_keeps_next_claim(s: Seq<QueueItem>, added: Seq<QueueItem>, i: int)
    requires
        is_first_pending(s, i),
    ensures
        is_first_pending(s + added, i),
{
    assert forall|j: int| 0 <= j < i implies (#[trigger] (s + added)[j]).status != QueueStatus::Pending by {
        assert((s + added)[j] == s[j]);
    }
}

/// Job `x` stands before job `y` in the queue.
pub open spec fn stands_before(s: Seq<QueueItem>, x: u128, y: u128) -> bool {
    exists|a: int, b: int| 0 <= a < b < s.len() && (#[trigger] s[a]).id == x && (#[trigger] s[b]).id == y
}

/// A job submitted later stands after every job already queued and after
/// the jobs submitted before it in the same batch.
pub proof fn lemma_submission_sets_order(s: Seq<QueueItem>, added: Seq<QueueItem>, a: int, b: int)
    requires
        0 <= a < b < s.len() + added.len(),
        b >= s.len(),
    ensures
        stands_before(s + added, (s + added)[a].id, (s + added)[b].id),
{
    let t = s + added;
    assert(t[a].id == t[a].id && t[b].id == t[b].id);
}

/// Submitting more jobs keeps the order of the jobs already queued.
pub proof fn lemma_submission_keeps_order(s: Seq<QueueItem>, added: Seq<QueueItem>, x: u128, y: u128)
    requires
        stands_before(s, x, y),
    ensures
        stands_before(s + added, x, y),
{
    let (a, b) = choose|a: int, b: int| 0 <= a < b < s.len() && (#[trigger] s[a]).id == x && (#[trigger] s[b]).id == y;
    assert((s + added)[a] == s[a] && (s + added)[b] == s[b]);
}

/// Removing a third job keeps the order of two others.
pub proof fn lemma_removal_keeps_order(s: Seq<QueueItem>, x: u128, y: u128, gone: int)
    requires
        stands_before(s, x, y),
        0 <= gone < s.len(),
        s[gone].id != x,
        s[gone].id != y,
    ensures
        stands_before(s.remove(gone), x, y),
{
    let (a, b) = choose|a: int, b: int| 0 <= a < b < s.len() && (#[trigger] s[a]).id == x && (#[trigger] s[b]).id == y;
    let t = s.remove(gone);
    let a2 = if a < gone { a } else { a - 1 };
    let b2 = if b < gone { b } else { b - 1 };
    assert(t[a2] == s[a]);
    assert(t[b2] == s[b]);
}

/// Claiming a job, or recording an outcome on it, moves no job.
pub proof fn lemma_claim_keeps_order(s: Seq<QueueItem>, i: int, x: u128, y: u128)
    requires
        stands_before(s, x, y),
        0 <= i < s.len(),
    ensures
        stands_before(claimed(s, i), x, y),
{
    let (a, b) = choose|a: int, b: int| 0 <= a < b < s.len() && (#[trigger] s[a]).id == x && (#[trigger] s[b]).id == y;
    let t = claimed(s, i);
    assert(t[a].id == s[a].id && t[b].id == s[b].id);
}

/// Claims respect submission order: while `x` is pending, a job `y`
/// standing after it is not the one claimed.
pub proof fn lemma_claim_respects_order(s: Seq<QueueItem>, i: int, x: u128, y: u128)
    requires
        ids_unique(s),
        stands_before(s, x, y),
        exists|a: int| 0 <= a < s.len() && (#[trigger] s[a]).id == x && s[a].status == QueueStatus::Pending,
        is_first_pending(s, i),
    ensures
        s[i].id != y,
{
    let (a, b) = choose|a: int, b: int| 0 <= a < b < s.len() && (#[trigger] s[a]).id == x && (#[trigger] s[b]).id == y;
    let p = choose|p: int| 0 <= p < s.len() && (#[trigger] s[p]).id == x && s[p].status == QueueStatus::Pending;
    assert(p == a);
    if s[i].id == y {
        assert(i == b);
        assert(s[a].status != QueueStatus::Pending);
    }
}

/// Every pending job of `s` is `x` or `y`.
pub open spec fn pending_only(s: Seq<QueueItem>, x: u128, y: u128) -> bool {
    forall|j: int| 0 <= j < s.len() && (#[trigger] s[j]).status == QueueStatus::Pending ==> s[j].id == x || s[j].id == y
}

/// Job `x` is in `s` and pending.
pub open spec fn is_pending_in(s: Seq<QueueItem>, x: u128) -> bool {
    exists|a: int| 0 <= a < s.len() && (#[trigger] s[a]).id == x && s[a].status == QueueStatus::Pending
}

/// Submitting a pending job to a queue with nothing pending leaves it the
/// only pending job.
pub proof fn lemma_first_submission(s: Seq<QueueItem>, x: QueueItem)
    requires
        !has_pending(s),
        x.status == QueueStatus::Pending,
    ensures
        pending_only(s + seq![x], x.id, x.id),
        is_pending_in(s + seq![x], x.id),
{
    let t = s + seq![x];
    assert(t[s.len() as int] == x);
    assert forall|j: int| 0 <= j < t.len() && (#[trigger] t[j]).status == QueueStatus::Pending implies t[j].id == x.id by {
        if j < s.len() {
            assert(t[j] == s[j]);
        }
    }
}

/// Submitting a second pending job after a pending `x` that was the only
/// pending job puts the new job after `x`, and the two are the only
/// pending jobs.
pub proof fn lemma_second_submission(s: Seq<QueueItem>, x: u128, y: QueueItem)
    requires
        pending_only(s, x, x),
        is_pending_in(s, x),
        y.status == QueueStatus::Pending,
    ensures
        pending_only(s + seq![y], x, y.id),
        stands_before(s + seq![y], x, y.id),
        is_pending_in(s + seq![y], x),
        is_pending_in(s + seq![y], y.id),
{
    let t = s + seq![y];
    let a = choose|a: int| 0 <= a < s.len() && (#[trigger] s[a]).id == x && s[a].status == QueueStatus::Pending;
    assert(t[a] == s[a]);
    assert(t[s.len() as int] == y);
    assert forall|j: int| 0 <= j < t.len() && (#[trigger] t[j]).status == QueueStatus::Pending implies t[j].id == x || t[j].id == y.id by {
        if j < s.len() {
            assert(t[j] == s[j]);
        }
    }
}

/// Removing a job other than `x` and `y` keeps every fact the claim order
/// rests on.
pub proof fn lemma_removal_keeps_claim_order(s: Seq<QueueItem>, x: u128, y: u128, gone: int)
    requires
        0 <= gone < s.len(),
        s[gone].id != x,
        s[gone].id != y,
        pending_only(s, x, y),
        is_pending_in(s, x),
        is_pending_in(s, y),
    ensures
        pending_only(s.remove(gone), x, y),
        is_pending_in(s.remove(gone), x),
        is_pending_in(s.remove(gone), y),
        stands_before(s, x, y) ==> stands_before(s.remove(gone), x, y),
{
    let t = s.remove(gone);
    assert forall|j: int| 0 <= j < t.len() && (#[trigger] t[j]).status == QueueStatus::Pending implies t[j].id == x || t[j].id == y by {
        if j < gone {
            assert(t[j] == s[j]);
        } else {
            assert(t[j] == s[j + 1]);
        }
    }
    let a = choose|a: int| 0 <= a < s.len() && (#[trigger] s[a]).id == x && s[a].status == QueueStatus::Pending;
    let b = choose|b: int| 0 <= b < s.len() && (#[trigger] s[b]).id == y && s[b].status == QueueStatus::Pending;
    let a2 = if a < gone { a } else { a - 1 };
    let b2 = if b < gone { b } else { b - 1 };
    assert(t[a2] == s[a]);
    assert(t[b2] == s[b]);
    if stands_before(s, x, y) {
        lemma_removal_keeps_order(s, x, y, gone);
    }
}

/// Two jobs submitted in turn are claimed in turn: with `x` before `y`
/// and no other job pending, the first claim takes `x` and the claim after
/// it takes `y`.
pub proof fn lemma_two_jobs_claimed_in_submission_order(s: Seq<QueueItem>, i: int, x: u128, y: u128)
    requires
        ids_unique(s),
        x != y,
        stands_before(s, x, y),
        pending_only(s, x, y),
        is_pending_in(s, x),
        is_pending_in(s, y),
        is_first_pending(s, i),
    ensures
        s[i].id == x,
        forall|k: int| is_first_pending(claimed(s, i), k) ==> claimed(s, i)[k].id == y,
        exists|k: int| is_first_pending(claimed(s, i), k),
{
    lemma_claim_respects_order(s, i, x, y);
    let t = claimed(s, i);
    let b = choose|b: int| 0 <= b < s.len() && (#[trigger] s[b]).id == y && s[b].status == QueueStatus::Pending;
    assert forall|k: int| is_first_pending(t, k) implies t[k].id == y by {
        assert(t[k].status == QueueStatus::Pending);
        if k == i {
            assert(t[k].status == QueueStatus::Processing);
        } else {
            assert(t[k] == s[k]);
        }
    }
    assert(t[b] == s[b]);
    assert forall|j: int| 0 <= j < b implies (#[trigger] t[j]).status != QueueStatus::Pending by {
        if j != i {
            assert(t[j] == s[j]);
            if s[j].status == QueueStatus::Pending {
                assert(s[j].id == x);
                assert(j == i);
            }
        }
    }
    assert(is_first_pending(t, b));
}

} // verus!
