//! The state of the dashboard: the latest snapshot of the server, the one
//! before it, and the last error.

use vstd::prelude::*;

use crate::model::{tube_total, Snapshot, TubeStats};
use crate::text::str_eq;

verus! {

/// The dashboard's state.
pub struct App {
    /// The latest snapshot.
    pub current: Option<Snapshot>,
    /// The snapshot before the latest one.
    pub previous: Option<Snapshot>,
    /// The last error, until the next snapshot comes.
    pub error: Option<String>,
}

/// The position of the first tube of `tubes` named `name`, or the number
/// of tubes when none is.
pub open spec fn first_named(tubes: Seq<TubeStats>, name: Seq<char>) -> int
    decreases tubes.len(),
{
    if tubes.len() == 0 {
        0
    } else if tubes[0].name@ == name {
        0
    } else {
        1 + first_named(tubes.drop_first(), name)
    }
}

proof fn lemma_first_named_at(tubes: Seq<TubeStats>, name: Seq<char>, j: int)
    requires
        0 <= j <= tubes.len(),
        forall|a: int| 0 <= a < j ==> #[trigger] tubes[a].name@ != name,
        j == tubes.len() || tubes[j].name@ == name,
    ensures
        first_named(tubes, name) == j,
    decreases j,
{
    if j > 0 {
        let t = tubes.drop_first();
        assert forall|a: int| 0 <= a < j - 1 implies #[trigger] t[a].name@ != name by {
            assert(t[a] == tubes[a + 1]);
        }
        if j < tubes.len() {
            assert(t[j - 1] == tubes[j]);
        }
        assert(tubes[0].name@ != name);
        lemma_first_named_at(t, name, j - 1);
    }
}

proof fn lemma_first_named(tubes: Seq<TubeStats>, name: Seq<char>)
    ensures
        0 <= first_named(tubes, name) <= tubes.len(),
        forall|j: int| 0 <= j < first_named(tubes, name) ==> #[trigger] tubes[j].name@ != name,
        first_named(tubes, name) < tubes.len() ==> tubes[first_named(tubes, name)].name@ == name,
    decreases tubes.len(),
{
    if tubes.len() > 0 && tubes[0].name@ != name {
        let t = tubes.drop_first();
        lemma_first_named(t, name);
        assert forall|j: int| 0 <= j < first_named(tubes, name) implies #[trigger] tubes[j].name@ != name by {
            if j > 0 {
                assert(tubes[j] == t[j - 1]);
            }
        }
        if first_named(tubes, name) < tubes.len() {
            assert(tubes[first_named(tubes, name)] == t[first_named(t, name)]);
        }
    }
}

/// The previous total of a tube is the sum of the ready, reserved,
/// delayed and buried jobs of the first tube with that name in the
/// previous snapshot; there is none when the previous snapshot has no
/// tube with that name, or there is no previous snapshot.
pub proof fn law_previous_total(app: App, name: Seq<char>)
    ensures
        match app.previous_total(name) {
            Some(v) => app.previous matches Some(snap) && exists|i: int|
                0 <= i < snap.tubes@.len() && #[trigger] snap.tubes@[i].name@ == name && (forall|
                    j: int,
                | 0 <= j < i ==> snap.tubes@[j].name@ != name) && v == snap.tubes@[i].current_jobs_ready
                    + snap.tubes@[i].current_jobs_reserved + snap.tubes@[i].current_jobs_delayed
                    + snap.tubes@[i].current_jobs_buried,
            None => app.previous matches Some(snap) ==> forall|j: int|
                0 <= j < snap.tubes@.len() ==> #[trigger] snap.tubes@[j].name@ != name,
        },
{
    if let Some(snap) = app.previous {
        let ts = snap.tubes@;
        lemma_first_named(ts, name);
        let i = first_named(ts, name);
        if i < ts.len() {
            assert(ts[i].name@ == name);
        }
    }
}

impl App {
    /// The total jobs of the tube named `name` in the previous snapshot:
    /// those of the first tube with that name, none when there is no
    /// previous snapshot or no such tube.
    pub open spec fn previous_total(&self, name: Seq<char>) -> Option<int> {
        match self.previous {
            Some(snap) => {
                let i = first_named(snap.tubes@, name);
                if i < snap.tubes@.len() {
                    Some(tube_total(snap.tubes@[i]))
                } else {
                    None
                }
            },
            None => None,
        }
    }

    /// A dashboard with no snapshot and no error.
    pub fn new() -> (app: Self)
        ensures
            app.current is None,
            app.previous is None,
            app.error is None,
    {
        App { current: None, previous: None, error: None }
    }

    /// Takes in a new snapshot: the latest becomes the previous one and
    /// the error is cleared.
    pub fn update(&mut self, snapshot: Snapshot)
        ensures
            final(self).previous == old(self).current,
            final(self).current == Some(snapshot),
            final(self).error is None,
    {
        self.previous = self.current.take();
        self.current = Some(snapshot);
        self.error = None;
    }

    /// Records an error; the snapshots stay.
    pub fn set_error(&mut self, msg: String)
        ensures
            final(self).error == Some(msg),
            final(self).current == old(self).current,
            final(self).previous == old(self).previous,
    {
        self.error = Some(msg);
    }

    /// Get the previous total job count for a tube by name.
    pub fn previous_tube_total(&self, name: &str) -> (r: Option<u64>)
        requires
            self.previous_total(name@) matches Some(t) ==> t <= u64::MAX,
        ensures
            match self.previous_total(name@) {
                Some(t) => r == Some(t as u64),
                None => r is None,
            },
            match r {
                Some(v) => self.previous matches Some(snap) && exists|i: int|
                    0 <= i < snap.tubes@.len() && #[trigger] snap.tubes@[i].name@ == name@
                        && (forall|j: int| 0 <= j < i ==> snap.tubes@[j].name@ != name@) && v
                        == snap.tubes@[i].current_jobs_ready + snap.tubes@[i].current_jobs_reserved
                        + snap.tubes@[i].current_jobs_delayed + snap.tubes@[i].current_jobs_buried,
                None => self.previous matches Some(snap) ==> forall|j: int|
                    0 <= j < snap.tubes@.len() ==> #[trigger] snap.tubes@[j].name@ != name@,
            },
    {
        match &self.previous {
            None => None,
            Some(snap) => {
                let n = snap.tubes.len();
                let mut i: usize = 0;
                while i < n
                    invariant
                        self.previous == Some(*snap),
                        self.previous_total(name@) matches Some(t) ==> t <= u64::MAX,
                        n == snap.tubes@.len(),
                        i <= n,
                        forall|a: int| 0 <= a < i ==> #[trigger] snap.tubes@[a].name@ != name@,
                    decreases n - i,
                {
                    if str_eq(snap.tubes[i].name.as_str(), name) {
                        proof {
                            lemma_first_named_at(snap.tubes@, name@, i as int);
                            assert(snap.tubes@[i as int].name@ == name@);
                        }
                        return Some(snap.tubes[i].current_total());
                    }
                    i = i + 1;
                }
                proof {
                    lemma_first_named_at(snap.tubes@, name@, n as int);
                }
                None
            },
        }
    }
}

} // verus!
