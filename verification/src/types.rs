//! The result accumulator: accounts scanned, aggregated, failed and ignored
//! entries, deduplicating each collection, and supports merging sub-scans.

use vstd::prelude::*;

verus! {

/// A path selected for aggregation.
#[derive(Debug, Clone)]
pub struct Scanned {
    pub path: String,
}

impl View for Scanned {
    type V = Seq<char>;

    open spec fn view(&self) -> Seq<char> {
        self.path@
    }
}

impl Scanned {
    pub fn new(path: &str) -> (r: Self)
        ensures
            r@ == path@,
    {
        Scanned { path: path.to_owned() }
    }
}

/// A path successfully read and written to the output, with its byte length.
#[derive(Debug, Clone)]
pub struct Squished {
    pub path: String,
    pub size: u64,
}

impl View for Squished {
    type V = (Seq<char>, u64);

    open spec fn view(&self) -> (Seq<char>, u64) {
        (self.path@, self.size)
    }
}

impl Squished {
    pub fn new(path: &str, size: u64) -> (r: Self)
        ensures
            r@ == (path@, size),
    {
        Squished { path: path.to_owned(), size }
    }
}

/// A path that could not be processed, with a short failure reason.
#[derive(Debug, Clone)]
pub struct Failed {
    pub path: String,
    pub error: String,
}

impl View for Failed {
    type V = (Seq<char>, Seq<char>);

    open spec fn view(&self) -> (Seq<char>, Seq<char>) {
        (self.path@, self.error@)
    }
}

impl Failed {
    pub fn new(path: &str, error: &str) -> (r: Self)
        ensures
            r@ == (path@, error@),
    {
        Failed { path: path.to_owned(), error: error.to_owned() }
    }
}

/// The mathematical state of a [`SquishResult`].
#[verifier::ext_equal]
pub struct SquishResultView {
    pub scanned: Seq<Seq<char>>,
    pub squished: Seq<(Seq<char>, u64)>,
    pub failed: Seq<(Seq<char>, Seq<char>)>,
    pub ignored: u64,
    pub output: Option<Seq<char>>,
}

pub open spec fn paths_of(v: Seq<Scanned>) -> Seq<Seq<char>> {
    v.map_values(|s: Scanned| s@)
}

pub open spec fn sizes_of(v: Seq<Squished>) -> Seq<(Seq<char>, u64)> {
    v.map_values(|s: Squished| s@)
}

pub open spec fn errors_of(v: Seq<Failed>) -> Seq<(Seq<char>, Seq<char>)> {
    v.map_values(|s: Failed| s@)
}

/// Append a path unless it is already present: recording is idempotent.
pub open spec fn record_path(s: Seq<Seq<char>>, p: Seq<char>) -> Seq<Seq<char>> {
    if s.contains(p) {
        s
    } else {
        s.push(p)
    }
}

pub open spec fn has_sized_path(s: Seq<(Seq<char>, u64)>, p: Seq<char>) -> bool {
    exists|i: int| 0 <= i < s.len() && s[i].0 == p
}

/// Append a success unless its path is already present.
pub open spec fn record_size(s: Seq<(Seq<char>, u64)>, p: Seq<char>, size: u64) -> Seq<
    (Seq<char>, u64),
> {
    if has_sized_path(s, p) {
        s
    } else {
        s.push((p, size))
    }
}

/// Append a failure unless the same path with the same reason is already present.
pub open spec fn record_error(s: Seq<(Seq<char>, Seq<char>)>, p: Seq<char>, e: Seq<char>) -> Seq<
    (Seq<char>, Seq<char>),
> {
    if s.contains((p, e)) {
        s
    } else {
        s.push((p, e))
    }
}

/// Saturating increment, so that counting an entry never panics.
pub open spec fn inc_sat(x: u64) -> u64 {
    if x == u64::MAX {
        x
    } else {
        (x + 1) as u64
    }
}

/// Saturating addition.
pub open spec fn add_sat(x: u64, y: u64) -> u64 {
    if x + y > u64::MAX {
        u64::MAX
    } else {
        (x + y) as u64
    }
}

/// The state of a freshly created accumulator.
pub open spec fn empty_view() -> SquishResultView {
    SquishResultView {
        scanned: Seq::<Seq<char>>::empty(),
        squished: Seq::<(Seq<char>, u64)>::empty(),
        failed: Seq::<(Seq<char>, Seq<char>)>::empty(),
        ignored: 0u64,
        output: None::<Seq<char>>,
    }
}

/// What merging one accumulator into another produces: the three collections
/// are concatenated and the ignored counters added; the output path of the
/// absorbing accumulator is kept.
pub open spec fn merge_view(a: SquishResultView, b: SquishResultView) -> SquishResultView {
    SquishResultView {
        scanned: a.scanned + b.scanned,
        squished: a.squished + b.squished,
        failed: a.failed + b.failed,
        ignored: add_sat(a.ignored, b.ignored),
        output: a.output,
    }
}

/// The result accumulator: every outcome of a scan-and-aggregate run.
#[derive(Debug)]
pub struct SquishResult {
    scanned: Vec<Scanned>,
    squished: Vec<Squished>,
    failed: Vec<Failed>,
    ignored: u64,
    output: Option<String>,
}

impl View for SquishResult {
    type V = SquishResultView;

    closed spec fn view(&self) -> SquishResultView {
        SquishResultView {
            scanned: paths_of(self.scanned@),
            squished: sizes_of(self.squished@),
            failed: errors_of(self.failed@),
            ignored: self.ignored,
            output: match self.output {
                Some(ref o) => Some(o@),
                None => None,
            },
        }
    }
}

impl SquishResult {
    /// A fresh accumulator with nothing recorded.
    pub fn new() -> (r: Self)
        ensures
            r@ == empty_view(),
    {
        let r = SquishResult {
            scanned: Vec::new(),
            squished: Vec::new(),
            failed: Vec::new(),
            ignored: 0,
            output: None,
        };
        proof {
            assert(paths_of(r.scanned@) =~= Seq::<Seq<char>>::empty());
            assert(sizes_of(r.squished@) =~= Seq::<(Seq<char>, u64)>::empty());
            assert(errors_of(r.failed@) =~= Seq::<(Seq<char>, Seq<char>)>::empty());
        }
        r
    }

    /// The selected files, in the order they were first recorded.
    pub fn iter_scanned(&self) -> (r: &Vec<Scanned>)
        ensures
            paths_of(r@) == self@.scanned,
    {
        &self.scanned
    }

    /// Record a path as selected for aggregation; a path already recorded is
    /// not recorded again.
    pub fn scanned(&mut self, path: &str)
        ensures
            final(self)@ == (SquishResultView {
                scanned: record_path(old(self)@.scanned, path@),
                ..old(self)@
            }),
    {
        if !scanned_contains(&self.scanned, path) {
            self.scanned.push(Scanned::new(path));
            proof {
                assert(paths_of(self.scanned@) =~= old(self)@.scanned.push(path@));
            }
        }
    }

    /// Record a successfully aggregated path with its byte length; a path
    /// already recorded as a success is not recorded again.
    pub fn success(&mut self, path: &str, size: u64)
        ensures
            final(self)@ == (SquishResultView {
                squished: record_size(old(self)@.squished, path@, size),
                ..old(self)@
            }),
    {
        if !squished_contains(&self.squished, path) {
            self.squished.push(Squished::new(path, size));
            proof {
                assert(sizes_of(self.squished@) =~= old(self)@.squished.push((path@, size)));
            }
        }
    }

    /// Record a failed path with its reason; the same path with the same
    /// reason is not recorded again.
    pub fn failure(&mut self, path: &str, error: &str)
        ensures
            final(self)@ == (SquishResultView {
                failed: record_error(old(self)@.failed, path@, error@),
                ..old(self)@
            }),
    {
        if !failed_contains(&self.failed, path, error) {
            self.failed.push(Failed::new(path, error));
            proof {
                assert(errors_of(self.failed@) =~= old(self)@.failed.push((path@, error@)));
            }
        }
    }

    /// Count one entry as deliberately excluded.
    pub fn ignored(&mut self)
        ensures
            final(self)@ == (SquishResultView { ignored: inc_sat(old(self)@.ignored), ..old(self)@ }),
    {
        if self.ignored < u64::MAX {
            self.ignored = self.ignored + 1;
        }
    }

    /// Absorb another accumulator: concatenate the three collections and add
    /// the ignored counters.
    pub fn extend(&mut self, other: SquishResult)
        ensures
            final(self)@ == merge_view(old(self)@, other@),
    {
        let ghost absorbed = other@;
        let mut rest = other;
        self.scanned.append(&mut rest.scanned);
        self.squished.append(&mut rest.squished);
        self.failed.append(&mut rest.failed);
        if self.ignored > u64::MAX - rest.ignored {
            self.ignored = u64::MAX;
        } else {
            self.ignored = self.ignored + rest.ignored;
        }
        proof {
            assert(paths_of(self.scanned@) =~= old(self)@.scanned + absorbed.scanned);
            assert(sizes_of(self.squished@) =~= old(self)@.squished + absorbed.squished);
            assert(errors_of(self.failed@) =~= old(self)@.failed + absorbed.failed);
        }
    }

    /// Remember where the output artifact was resolved; the last write wins.
    pub fn set_output_path(&mut self, path: &str)
        ensures
            final(self)@ == (SquishResultView { output: Some(path@), ..old(self)@ }),
    {
        self.output = Some(path.to_owned());
    }

    /// The total byte count of all aggregated files, saturating at the
    /// largest representable value.
    pub fn size(&self) -> (r: u64)
        ensures
            r == sum_sizes(self@.squished),
    {
        let ghost s = sizes_of(self.squished@);
        let mut total: u64 = 0;
        let n = self.squished.len();
        let mut i: usize = 0;
        while i < n
            invariant
                n == self.squished.len(),
                s == sizes_of(self.squished@),
                0 <= i <= n,
                total == sum_sizes(s.subrange(0, i as int)),
            decreases n - i,
        {
            let sz = self.squished[i].size;
            if total > u64::MAX - sz {
                total = u64::MAX;
            } else {
                total = total + sz;
            }
            proof {
                assert(s.subrange(0, i + 1 as int).drop_last() =~= s.subrange(0, i as int));
                assert(s.subrange(0, i + 1 as int).last() == s[i as int]);
            }
            i = i + 1;
        }
        proof {
            assert(s.subrange(0, n as int) =~= s);
        }
        total
    }

    /// The successfully aggregated files, in recording order.
    pub fn squished_list(&self) -> (r: &Vec<Squished>)
        ensures
            sizes_of(r@) == self@.squished,
    {
        &self.squished
    }

    /// The failed files with their reasons, in recording order.
    pub fn failed_list(&self) -> (r: &Vec<Failed>)
        ensures
            errors_of(r@) == self@.failed,
    {
        &self.failed
    }

    /// How many entries were deliberately excluded.
    pub fn ignored_count(&self) -> (r: u64)
        ensures
            r == self@.ignored,
    {
        self.ignored
    }

    /// The resolved output path, once one was recorded.
    pub fn output_path(&self) -> (r: &Option<String>)
        ensures
            match r {
                Some(o) => self@.output == Some(o@),
                None => self@.output is None,
            },
    {
        &self.output
    }
}

/// The saturating sum of the recorded byte lengths.
pub open spec fn sum_sizes(s: Seq<(Seq<char>, u64)>) -> u64
    decreases s.len(),
{
    if s.len() == 0 {
        0u64
    } else {
        add_sat(sum_sizes(s.drop_last()), s.last().1)
    }
}

/// Law: recording a selected path is idempotent. Recording a path that is
/// already present changes nothing, and recording a new one appends exactly
/// that one entry.
pub proof fn lemma_record_path_idempotent(s: Seq<Seq<char>>, p: Seq<char>)
    ensures
        record_path(record_path(s, p), p) == record_path(s, p),
        !s.contains(p) ==> record_path(s, p) == s.push(p),
{
    if !s.contains(p) {
        assert(s.push(p)[s.len() as int] == p);
        assert(s.push(p).contains(p));
    }
}

/// Law: recording a success is idempotent on its path. Once a path is present
/// no later success for the same path is recorded, whatever size it carries.
pub proof fn lemma_record_size_idempotent(s: Seq<(Seq<char>, u64)>, p: Seq<char>, z1: u64, z2: u64)
    ensures
        record_size(record_size(s, p, z1), p, z2) == record_size(s, p, z1),
        !has_sized_path(s, p) ==> record_size(s, p, z1) == s.push((p, z1)),
{
    if !has_sized_path(s, p) {
        assert(s.push((p, z1))[s.len() as int].0 == p);
        assert(has_sized_path(s.push((p, z1)), p));
    }
}

/// Law: recording a failure is idempotent on its path-and-reason pair.
pub proof fn lemma_record_error_idempotent(s: Seq<(Seq<char>, Seq<char>)>, p: Seq<char>, e: Seq<char>)
    ensures
        record_error(record_error(s, p, e), p, e) == record_error(s, p, e),
        !s.contains((p, e)) ==> record_error(s, p, e) == s.push((p, e)),
{
    if !s.contains((p, e)) {
        assert(s.push((p, e))[s.len() as int] == (p, e));
        assert(s.push((p, e)).contains((p, e)));
    }
}

/// Law: merging accumulators is associative, exactly, on every component.
pub proof fn lemma_merge_associative(
    a: SquishResultView,
    b: SquishResultView,
    c: SquishResultView,
)
    ensures
        merge_view(merge_view(a, b), c) == merge_view(a, merge_view(b, c)),
{
    assert(merge_view(merge_view(a, b), c) =~= merge_view(a, merge_view(b, c)));
}

/// Law: merging in either order yields the same counters and the same
/// collection contents; only the list order may differ.
pub proof fn lemma_merge_content_commutative(a: SquishResultView, b: SquishResultView)
    ensures
        merge_view(a, b).scanned.to_multiset() == merge_view(b, a).scanned.to_multiset(),
        merge_view(a, b).squished.to_multiset() == merge_view(b, a).squished.to_multiset(),
        merge_view(a, b).failed.to_multiset() == merge_view(b, a).failed.to_multiset(),
        merge_view(a, b).ignored == merge_view(b, a).ignored,
        merge_view(a, b).scanned.len() == merge_view(b, a).scanned.len(),
        merge_view(a, b).squished.len() == merge_view(b, a).squished.len(),
        merge_view(a, b).failed.len() == merge_view(b, a).failed.len(),
{
    broadcast use vstd::seq_lib::lemma_multiset_commutative;
    broadcast use vstd::multiset::group_multiset_axioms;

    assert(a.scanned.to_multiset().add(b.scanned.to_multiset()) =~= b.scanned.to_multiset().add(
        a.scanned.to_multiset(),
    ));
    assert(a.squished.to_multiset().add(b.squished.to_multiset()) =~= b.squished.to_multiset().add(
        a.squished.to_multiset(),
    ));
    assert(a.failed.to_multiset().add(b.failed.to_multiset()) =~= b.failed.to_multiset().add(
        a.failed.to_multiset(),
    ));
}

fn scanned_contains(v: &Vec<Scanned>, path: &str) -> (r: bool)
    ensures
        r == paths_of(v@).contains(path@),
{
    let p = path.to_owned();
    let n = v.len();
    let mut i: usize = 0;
    while i < n
        invariant
            n == v.len(),
            0 <= i <= n,
            p@ == path@,
            forall|j: int| 0 <= j < i ==> paths_of(v@)[j] != path@,
        decreases n - i,
    {
        if v[i].path == p {
            assert(paths_of(v@)[i as int] == path@);
            return true;
        }
        i = i + 1;
    }
    assert(!paths_of(v@).contains(path@)) by {
        assert(forall|j: int| 0 <= j < paths_of(v@).len() ==> paths_of(v@)[j] != path@);
    }
    false
}

fn squished_contains(v: &Vec<Squished>, path: &str) -> (r: bool)
    ensures
        r == has_sized_path(sizes_of(v@), path@),
{
    let p = path.to_owned();
    let n = v.len();
    let mut i: usize = 0;
    while i < n
        invariant
            n == v.len(),
            0 <= i <= n,
            p@ == path@,
            forall|j: int| 0 <= j < i ==> sizes_of(v@)[j].0 != path@,
        decreases n - i,
    {
        if v[i].path == p {
            assert(sizes_of(v@)[i as int].0 == path@);
            return true;
        }
        i = i + 1;
    }
    false
}

fn failed_contains(v: &Vec<Failed>, path: &str, error: &str) -> (r: bool)
    ensures
        r == errors_of(v@).contains((path@, error@)),
{
    let p = path.to_owned();
    let e = error.to_owned();
    let n = v.len();
    let mut i: usize = 0;
    while i < n
        invariant
            n == v.len(),
            0 <= i <= n,
            p@ == path@,
            e@ == error@,
            forall|j: int| 0 <= j < i ==> errors_of(v@)[j] != (path@, error@),
        decreases n - i,
    {
        if v[i].path == p && v[i].error == e {
            assert(errors_of(v@)[i as int] == (path@, error@));
            return true;
        }
        i = i + 1;
    }
    assert(!errors_of(v@).contains((path@, error@))) by {
        assert(forall|j: int| 0 <= j < errors_of(v@).len() ==> errors_of(v@)[j] != (path@, error@));
    }
    false
}

} // verus!
