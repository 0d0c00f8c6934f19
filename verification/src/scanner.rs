//! The tree scanner: path classification and the recursive walk over a
//! directory tree, producing a result accumulator.

use vstd::prelude::*;
use vstd::string::StringExecFns;

use crate::errors::SquishError;
use crate::types::{
    empty_view, inc_sat, merge_view, record_error, record_path, SquishResult, SquishResultView,
};

verus! {

/// One filesystem entry as the walk sees it: its path and what kind of entry
/// it turned out to be. A directory whose listing could not be read is
/// `DeniedDir`, and an entry whose type could not be determined is
/// `Unreadable`.
#[derive(Debug)]
pub enum FsNode {
    File { path: String },
    Symlink { path: String },
    Unknown { path: String },
    Unreadable { path: String },
    Dir { path: String, entries: Vec<FsNode> },
    DeniedDir { path: String, message: String },
}

/// The character code a character compares as when case is ignored: upper-case
/// ASCII letters fold to their lower-case code, everything else is itself.
pub open spec fn lower_code(c: char) -> int {
    if 65 <= c as int <= 90 {
        c as int + 32
    } else {
        c as int
    }
}

/// Two character sequences are equal once upper-case ASCII letters are folded.
pub open spec fn lower_eq(a: Seq<char>, b: Seq<char>) -> bool {
    a.len() == b.len() && (forall|i: int| 0 <= i < a.len() ==> lower_code(a[i]) == lower_code(b[i]))
}

/// `t` is where the run of trailing `/` characters begins: the end of the
/// path once trailing separators are discarded.
pub open spec fn trimmed_end(p: Seq<char>, t: int) -> bool {
    &&& 0 <= t <= p.len()
    &&& (forall|j: int| t <= j < p.len() ==> p[j] == '/')
    &&& (t == 0 || p[t - 1] != '/')
}

/// The final path component runs from `k` to `t`: trailing separators are
/// discarded first, as `Path::file_name` discards them, and the component is
/// what follows the last `/` before `t`.
pub open spec fn component_starts_at(p: Seq<char>, k: int, t: int) -> bool {
    &&& trimmed_end(p, t)
    &&& 0 <= k <= t
    &&& (k == 0 || p[k - 1] == '/')
    &&& (forall|j: int| k <= j < t ==> p[j] != '/')
}

/// The final path component is one of the ignored directory names, compared
/// without regard to ASCII case. A path whose final component is empty is
/// never ignored.
pub open spec fn ignored_dir_name(p: Seq<char>) -> bool {
    exists|k: int, t: int|
        #[trigger] component_starts_at(p, k, t) && (lower_eq(p.subrange(k, t), "target"@)
            || lower_eq(p.subrange(k, t), ".git"@))
}

/// The extension of the final path component begins at `d`: the character
/// before it is a `.` that is not the component's first character, and no
/// later character of the component is a `.`.
pub open spec fn extension_starts_at(p: Seq<char>, k: int, d: int, t: int) -> bool {
    &&& component_starts_at(p, k, t)
    &&& k + 1 < d <= t
    &&& p[d - 1] == '.'
    &&& (forall|j: int| d <= j < t ==> p[j] != '.')
}

/// The final path component carries one of the accepted file extensions,
/// compared without regard to ASCII case. A path with no extension is never
/// selected.
pub open spec fn selected_file_name(p: Seq<char>) -> bool {
    exists|k: int, d: int, t: int|
        #[trigger] extension_starts_at(p, k, d, t) && (lower_eq(p.subrange(d, t), "rs"@)
            || lower_eq(p.subrange(d, t), "toml"@))
}

/// One path has only one final component: its bounds are pinned by the path.
proof fn lemma_component_unique(p: Seq<char>, k: int, t: int, k2: int, t2: int)
    requires
        component_starts_at(p, k, t),
        component_starts_at(p, k2, t2),
    ensures
        k2 == k,
        t2 == t,
{
    assert(t2 == t) by {
        if t2 < t {
            assert(p[t - 1] == '/');
        }
        if t2 > t {
            assert(p[t2 - 1] == '/');
        }
    }
    assert(k2 == k) by {
        if k2 < k {
            assert(p[k - 1] == '/');
        }
        if k2 > k {
            assert(p[k2 - 1] == '/');
        }
    }
}

fn fold_code(c: char) -> (r: u32)
    ensures
        r as int == lower_code(c),
{
    let u = c as u32;
    if 65 <= u && u <= 90 {
        u + 32
    } else {
        u
    }
}

/// Whether the characters of `p` from `k` up to `t` equal `lit`, ignoring
/// ASCII case.
fn range_eq_nocase(p: &str, k: usize, t: usize, lit: &str) -> (r: bool)
    requires
        k <= t <= p@.len(),
    ensures
        r == lower_eq(p@.subrange(k as int, t as int), lit@),
{
    let m = lit.unicode_len();
    if t - k != m {
        return false;
    }
    let mut i: usize = 0;
    while i < m
        invariant
            k + m == t,
            t <= p@.len(),
            m == lit@.len(),
            0 <= i <= m,
            forall|j: int| 0 <= j < i ==> lower_code(p@[k + j]) == lower_code(lit@[j]),
        decreases m - i,
    {
        let a = fold_code(p.get_char(k + i));
        let b = fold_code(lit.get_char(i));
        if a != b {
            assert(lower_code(p@.subrange(k as int, t as int)[i as int]) != lower_code(
                lit@[i as int],
            ));
            return false;
        }
        i = i + 1;
    }
    assert(lower_eq(p@.subrange(k as int, t as int), lit@)) by {
        assert(forall|j: int|
            0 <= j < m ==> lower_code(p@.subrange(k as int, t as int)[j]) == lower_code(lit@[j]));
    }
    true
}

/// The index where the run of trailing `/` characters of `p` begins.
fn trim_end(p: &str) -> (t: usize)
    ensures
        trimmed_end(p@, t as int),
{
    let n = p.unicode_len();
    let mut t = n;
    while t > 0
        invariant
            n == p@.len(),
            0 <= t <= n,
            forall|j: int| t <= j < n ==> p@[j] == '/',
        decreases t,
    {
        if p.get_char(t - 1) != '/' {
            return t;
        }
        t = t - 1;
    }
    t
}

/// The index where the final path component of `p` begins, the component
/// ending at `t`.
fn component_start(p: &str, t: usize) -> (k: usize)
    requires
        trimmed_end(p@, t as int),
    ensures
        component_starts_at(p@, k as int, t as int),
        k <= t,
{
    let mut k = t;
    while k > 0
        invariant
            trimmed_end(p@, t as int),
            0 <= k <= t,
            forall|j: int| k <= j < t ==> p@[j] != '/',
        decreases k,
    {
        if p.get_char(k - 1) == '/' {
            return k;
        }
        k = k - 1;
    }
    k
}

/// Whether the final component of `path` names a directory that the walk
/// must not descend into: `target` or `.git` in any ASCII case, trailing
/// separators discarded.
pub fn is_ignored_dir(path: &str) -> (r: bool)
    ensures
        r == ignored_dir_name(path@),
{
    let t = trim_end(path);
    let k = component_start(path, t);
    let r = range_eq_nocase(path, k, t, "target") || range_eq_nocase(path, k, t, ".git");
    proof {
        if r {
            assert(component_starts_at(path@, k as int, t as int));
        } else {
            assert forall|k2: int, t2: int| #[trigger]
                component_starts_at(path@, k2, t2) implies !(lower_eq(
                path@.subrange(k2, t2),
                "target"@,
            ) || lower_eq(path@.subrange(k2, t2), ".git"@)) by {
                lemma_component_unique(path@, k as int, t as int, k2, t2);
            }
        }
    }
    r
}

/// Whether the final component of `path` carries one of the accepted
/// extensions: `rs` or `toml` in any ASCII case, trailing separators
/// discarded.
pub fn is_rust_adjacent(path: &str) -> (r: bool)
    ensures
        r == selected_file_name(path@),
{
    let t = trim_end(path);
    let k = component_start(path, t);
    let mut d = t;
    let mut found = false;
    while d > k && !found
        invariant
            t <= path@.len(),
            component_starts_at(path@, k as int, t as int),
            k <= d <= t,
            forall|j: int| d <= j < t ==> path@[j] != '.',
            found ==> k < d && path@[d - 1] == '.',
        decreases (if found {
            0int
        } else {
            1int
        }), d,
    {
        if path.get_char(d - 1) == '.' {
            found = true;
        } else {
            d = d - 1;
        }
    }
    if !found || d - 1 == k {
        // no dot, or a dot only as the component's first character: no extension
        proof {
            assert forall|k2: int, d2: int, t2: int| #[trigger]
                extension_starts_at(path@, k2, d2, t2) implies false by {
                lemma_component_unique(path@, k as int, t as int, k2, t2);
                assert(d2 - 1 >= k as int + 1);
                assert(path@[d2 - 1] == '.');
            }
        }
        return false;
    }
    assert(path@[d - 1] == '.');
    let r = range_eq_nocase(path, d, t, "rs") || range_eq_nocase(path, d, t, "toml");
    proof {
        if r {
            assert(extension_starts_at(path@, k as int, d as int, t as int));
        } else {
            assert forall|k2: int, d2: int, t2: int| #[trigger]
                extension_starts_at(path@, k2, d2, t2) implies !(lower_eq(
                path@.subrange(d2, t2),
                "rs"@,
            ) || lower_eq(path@.subrange(d2, t2), "toml"@)) by {
                lemma_component_unique(path@, k as int, t as int, k2, t2);
                assert(d2 == d as int) by {
                    if d2 < d as int {
                        assert(path@[d as int - 1] == '.');
                    }
                    if d2 > d as int {
                        assert(path@[d2 - 1] == '.');
                    }
                }
            }
        }
    }
    r
}

/// What scanning one directory entry adds to an accumulator: an unreadable
/// entry is a failure, a file is selected or ignored by its extension, a
/// symlink or unknown entry is ignored, an ignored directory counts once and
/// is not descended into, any other directory is scanned into a fresh
/// accumulator that is then merged in, and a directory whose listing failed
/// is dropped without aborting the walk.
pub open spec fn scan_entry_model(acc: SquishResultView, n: FsNode) -> SquishResultView
    decreases n,
{
    match n {
        FsNode::File { path } => if selected_file_name(path@) {
            SquishResultView { scanned: record_path(acc.scanned, path@), ..acc }
        } else {
            SquishResultView { ignored: inc_sat(acc.ignored), ..acc }
        },
        FsNode::Symlink { .. } => SquishResultView { ignored: inc_sat(acc.ignored), ..acc },
        FsNode::Unknown { .. } => SquishResultView { ignored: inc_sat(acc.ignored), ..acc },
        FsNode::Unreadable { path } => SquishResultView {
            failed: record_error(acc.failed, path@, "Cannot read"@),
            ..acc
        },
        FsNode::Dir { path, entries } => if ignored_dir_name(path@) {
            SquishResultView { ignored: inc_sat(acc.ignored), ..acc }
        } else {
            merge_view(acc, scan_entries_model(empty_view(), entries@))
        },
        FsNode::DeniedDir { path, .. } => if ignored_dir_name(path@) {
            SquishResultView { ignored: inc_sat(acc.ignored), ..acc }
        } else {
            acc
        },
    }
}

/// What scanning a directory listing produces, entry by entry in order.
pub open spec fn scan_entries_model(acc: SquishResultView, s: Seq<FsNode>) -> SquishResultView
    decreases s,
{
    if s.len() == 0 {
        acc
    } else {
        scan_entry_model(scan_entries_model(acc, s.drop_last()), s.last())
    }
}

/// The message of the fatal error when the root listing failed.
pub open spec fn scan_denied_message(io_message: Seq<char>) -> Seq<char> {
    "Failed to read directory: "@ + io_message
}

/// Walk a directory tree. Succeeds exactly when the root is a directory whose
/// listing could be read; the failure of anything below the root never aborts
/// the walk.
pub fn scan(root: &FsNode) -> (r: Result<SquishResult, SquishError>)
    ensures
        (match root {
            FsNode::Dir { entries, .. } => r matches Ok(res) && res@ == scan_entries_model(
                empty_view(),
                entries@,
            ),
            FsNode::DeniedDir { message, .. } => r matches Err(e) && e matches
                SquishError::ScanError { message: m } && m@ == scan_denied_message(message@),
            _ => r matches Err(e) && e matches SquishError::ScanError { message: m } && m@
                == scan_denied_message("not a directory"@),
        }),
{
    match root {
        FsNode::Dir { entries, .. } => Ok(scan_entries(entries)),
        FsNode::DeniedDir { message, .. } => {
            let mut m = String::from_str("Failed to read directory: ");
            m.append(message.as_str());
            Err(SquishError::ScanError { message: m })
        },
        _ => {
            let mut m = String::from_str("Failed to read directory: ");
            m.append("not a directory");
            Err(SquishError::ScanError { message: m })
        },
    }
}

fn scan_entries(entries: &Vec<FsNode>) -> (r: SquishResult)
    ensures
        r@ == scan_entries_model(empty_view(), entries@),
    decreases entries,
{
    let mut result = SquishResult::new();
    let n = entries.len();
    let mut i: usize = 0;
    while i < n
        invariant
            n == entries.len(),
            0 <= i <= n,
            result@ == scan_entries_model(empty_view(), entries@.subrange(0, i as int)),
        decreases n - i,
    {
        proof {
            assert(decreases_to!(entries@ => entries@[i as int]));
        }
        scan_entry(&mut result, &entries[i]);
        proof {
            assert(entries@.subrange(0, i + 1 as int).drop_last() =~= entries@.subrange(
                0,
                i as int,
            ));
            assert(entries@.subrange(0, i + 1 as int).last() == entries@[i as int]);
        }
        i = i + 1;
    }
    proof {
        assert(entries@.subrange(0, n as int) =~= entries@);
    }
    result
}

/// The selected file paths one entry contributes, in walk order, before any
/// deduplication.
pub open spec fn entry_selected_paths(n: FsNode) -> Seq<Seq<char>>
    decreases n,
{
    match n {
        FsNode::File { path } => if selected_file_name(path@) {
            seq![path@]
        } else {
            Seq::<Seq<char>>::empty()
        },
        FsNode::Dir { path, entries } => if ignored_dir_name(path@) {
            Seq::<Seq<char>>::empty()
        } else {
            selected_paths(entries@)
        },
        _ => Seq::<Seq<char>>::empty(),
    }
}

/// The selected file paths of a whole listing, in walk order.
pub open spec fn selected_paths(s: Seq<FsNode>) -> Seq<Seq<char>>
    decreases s,
{
    if s.len() == 0 {
        Seq::<Seq<char>>::empty()
    } else {
        selected_paths(s.drop_last()) + entry_selected_paths(s.last())
    }
}

/// How many entries one entry contributes to the ignored count.
pub open spec fn entry_ignored_count(n: FsNode) -> nat
    decreases n,
{
    match n {
        FsNode::File { path } => if selected_file_name(path@) {
            0nat
        } else {
            1nat
        },
        FsNode::Symlink { .. } => 1nat,
        FsNode::Unknown { .. } => 1nat,
        FsNode::Unreadable { .. } => 0nat,
        FsNode::Dir { path, entries } => if ignored_dir_name(path@) {
            1nat
        } else {
            ignored_count_of(entries@)
        },
        FsNode::DeniedDir { path, .. } => if ignored_dir_name(path@) {
            1nat
        } else {
            0nat
        },
    }
}

/// How many entries a whole listing contributes to the ignored count.
pub open spec fn ignored_count_of(s: Seq<FsNode>) -> nat
    decreases s,
{
    if s.len() == 0 {
        0nat
    } else {
        ignored_count_of(s.drop_last()) + entry_ignored_count(s.last())
    }
}

/// How many entries the walk visits and classifies under one entry: a file,
/// symlink, unknown entry or ignored directory counts once; a scanned
/// directory counts only what is inside it; an unreadable entry and a dropped
/// unreadable directory are failures, not classifications, and count nothing.
pub open spec fn entry_visit_count(n: FsNode) -> nat
    decreases n,
{
    match n {
        FsNode::File { .. } => 1nat,
        FsNode::Symlink { .. } => 1nat,
        FsNode::Unknown { .. } => 1nat,
        FsNode::Unreadable { .. } => 0nat,
        FsNode::Dir { path, entries } => if ignored_dir_name(path@) {
            1nat
        } else {
            visit_count_of(entries@)
        },
        FsNode::DeniedDir { path, .. } => if ignored_dir_name(path@) {
            1nat
        } else {
            0nat
        },
    }
}

/// How many entries the walk visits and classifies in a whole listing.
pub open spec fn visit_count_of(s: Seq<FsNode>) -> nat
    decreases s,
{
    if s.len() == 0 {
        0nat
    } else {
        visit_count_of(s.drop_last()) + entry_visit_count(s.last())
    }
}

proof fn lemma_entry_counts_split(n: FsNode)
    ensures
        entry_selected_paths(n).len() + entry_ignored_count(n) == entry_visit_count(n),
    decreases n,
{
    match n {
        FsNode::Dir { path, entries } => {
            if !ignored_dir_name(path@) {
                lemma_counts_split(entries@);
            }
        },
        _ => {},
    }
}

proof fn lemma_counts_split(s: Seq<FsNode>)
    ensures
        selected_paths(s).len() + ignored_count_of(s) == visit_count_of(s),
    decreases s,
{
    if s.len() > 0 {
        lemma_counts_split(s.drop_last());
        lemma_entry_counts_split(s.last());
    }
}

proof fn lemma_entry_accounting(acc: SquishResultView, n: FsNode)
    requires
        entry_selected_paths(n).no_duplicates(),
        forall|p: Seq<char>|
            entry_selected_paths(n).contains(p) ==> !acc.scanned.contains(p),
        acc.ignored + entry_ignored_count(n) <= u64::MAX,
    ensures
        scan_entry_model(acc, n).scanned == acc.scanned + entry_selected_paths(n),
        scan_entry_model(acc, n).ignored == acc.ignored + entry_ignored_count(n),
    decreases n,
{
    match n {
        FsNode::File { path } => {
            if selected_file_name(path@) {
                assert(entry_selected_paths(n)[0] == path@);
                assert(entry_selected_paths(n).contains(path@));
                assert(!acc.scanned.contains(path@));
                assert(scan_entry_model(acc, n).scanned =~= acc.scanned + entry_selected_paths(n));
            } else {
                assert(scan_entry_model(acc, n).scanned =~= acc.scanned + entry_selected_paths(n));
            }
        },
        FsNode::Dir { path, entries } => {
            if ignored_dir_name(path@) {
                assert(scan_entry_model(acc, n).scanned =~= acc.scanned + entry_selected_paths(n));
            } else {
                lemma_entries_accounting(empty_view(), entries@);
                assert(scan_entry_model(acc, n).scanned =~= acc.scanned + entry_selected_paths(n));
            }
        },
        _ => {
            assert(scan_entry_model(acc, n).scanned =~= acc.scanned + entry_selected_paths(n));
        },
    }
}

proof fn lemma_entries_accounting(acc: SquishResultView, s: Seq<FsNode>)
    requires
        selected_paths(s).no_duplicates(),
        forall|p: Seq<char>| selected_paths(s).contains(p) ==> !acc.scanned.contains(p),
        acc.ignored + ignored_count_of(s) <= u64::MAX,
    ensures
        scan_entries_model(acc, s).scanned == acc.scanned + selected_paths(s),
        scan_entries_model(acc, s).ignored == acc.ignored + ignored_count_of(s),
    decreases s,
{
    if s.len() == 0 {
        assert(scan_entries_model(acc, s).scanned =~= acc.scanned + selected_paths(s));
    } else {
        let s0 = s.drop_last();
        let e = s.last();
        let front = selected_paths(s0);
        let back = entry_selected_paths(e);
        assert(selected_paths(s) == front + back);
        // both halves inherit distinctness, and they are disjoint
        assert forall|i: int, j: int|
            0 <= i < front.len() && 0 <= j < front.len() && i != j implies front[i] != front[j] by {
            assert((front + back)[i] == front[i]);
            assert((front + back)[j] == front[j]);
        }
        assert(front.no_duplicates());
        assert forall|i: int, j: int|
            0 <= i < back.len() && 0 <= j < back.len() && i != j implies back[i] != back[j] by {
            assert((front + back)[front.len() + i] == back[i]);
            assert((front + back)[front.len() + j] == back[j]);
        }
        assert(back.no_duplicates());
        assert forall|p: Seq<char>| front.contains(p) implies selected_paths(s).contains(p) by {
            let i = choose|i: int| 0 <= i < front.len() && front[i] == p;
            assert((front + back)[i] == p);
        }
        assert forall|p: Seq<char>| back.contains(p) implies selected_paths(s).contains(p) by {
            let i = choose|i: int| 0 <= i < back.len() && back[i] == p;
            assert((front + back)[front.len() + i] == p);
        }
        lemma_entries_accounting(acc, s0);
        let acc1 = scan_entries_model(acc, s0);
        assert forall|p: Seq<char>| back.contains(p) implies !front.contains(p) by {
            if front.contains(p) {
                let i = choose|i: int| 0 <= i < front.len() && front[i] == p;
                let j = choose|j: int| 0 <= j < back.len() && back[j] == p;
                assert((front + back)[i] == p);
                assert((front + back)[front.len() + j] == p);
            }
        }
        assert(forall|p: Seq<char>| back.contains(p) ==> !acc1.scanned.contains(p)) by {
            assert(acc1.scanned == acc.scanned + front);
            assert forall|p: Seq<char>| back.contains(p) implies !acc1.scanned.contains(p) by {
                if acc1.scanned.contains(p) {
                    let i = choose|i: int|
                        0 <= i < acc1.scanned.len() && acc1.scanned[i] == p;
                    if i < acc.scanned.len() {
                        assert(acc.scanned[i] == p);
                        assert(acc.scanned.contains(p));
                    } else {
                        assert(front[i - acc.scanned.len()] == p);
                        assert(front.contains(p));
                    }
                }
            }
        }
        lemma_entry_accounting(acc1, e);
        assert(scan_entries_model(acc, s).scanned =~= acc.scanned + selected_paths(s));
    }
}

/// Law: over any directory listing, the number of scanned entries plus the
/// ignored count equals the number of entries the walk visited and
/// classified, excluding everything inside ignored directories. The selected
/// paths must be pairwise distinct, as the paths of a real tree are, and the
/// counts must fit the counter.
pub proof fn lemma_scan_accounting(s: Seq<FsNode>)
    requires
        selected_paths(s).no_duplicates(),
        visit_count_of(s) <= u64::MAX,
    ensures
        scan_entries_model(empty_view(), s).scanned.len() + scan_entries_model(
            empty_view(),
            s,
        ).ignored == visit_count_of(s),
{
    lemma_counts_split(s);
    lemma_entries_accounting(empty_view(), s);
    assert(scan_entries_model(empty_view(), s).scanned.len() == selected_paths(s).len()) by {
        assert(scan_entries_model(empty_view(), s).scanned == empty_view().scanned + selected_paths(
            s,
        ));
    }
}

/// Law: a directory whose final component is an ignored name (`target` or
/// `.git`, in any ASCII case, at whatever depth the walk meets it)
/// contributes exactly one ignored entry and nothing else; its contents do
/// not matter, so none of its descendants are scanned or counted.
pub proof fn lemma_ignored_dir_opaque(
    acc: SquishResultView,
    path: String,
    entries1: Vec<FsNode>,
    entries2: Vec<FsNode>,
)
    requires
        ignored_dir_name(path@),
    ensures
        scan_entry_model(acc, FsNode::Dir { path, entries: entries1 }) == (SquishResultView {
            ignored: inc_sat(acc.ignored),
            ..acc
        }),
        scan_entry_model(acc, FsNode::Dir { path, entries: entries1 }) == scan_entry_model(
            acc,
            FsNode::Dir { path, entries: entries2 },
        ),
{
}

fn scan_entry(result: &mut SquishResult, entry: &FsNode)
    ensures
        final (result)@ == scan_entry_model(old(result)@, *entry),
    decreases entry,
{
    match entry {
        FsNode::File { path } => {
            if is_rust_adjacent(path.as_str()) {
                result.scanned(path.as_str());
            } else {
                result.ignored();
            }
        },
        FsNode::Symlink { .. } => result.ignored(),
        FsNode::Unknown { .. } => result.ignored(),
        FsNode::Unreadable { path } => result.failure(path.as_str(), "Cannot read"),
        FsNode::Dir { path, entries } => {
            if is_ignored_dir(path.as_str()) {
                result.ignored();
            } else {
                let sub = scan_entries(entries);
                result.extend(sub);
            }
        },
        FsNode::DeniedDir { path, .. } => {
            if is_ignored_dir(path.as_str()) {
                result.ignored();
            }
        },
    }
}

} // verus!
