use vstd::prelude::*;
use vstd::string::*;

use crate::text::{chars_of, substring};

verus! {

/// `pat` occurs in `s` starting at index `i`.
pub open spec fn occurs_at(s: Seq<char>, pat: Seq<char>, i: int) -> bool {
    0 <= i && i + pat.len() <= s.len() && s.subrange(i, i + pat.len()) == pat
}

/// `i` is where the first occurrence of `pat` in `s` starts.
pub open spec fn is_first_occurrence(s: Seq<char>, pat: Seq<char>, i: int) -> bool {
    occurs_at(s, pat, i) && forall|j: int| 0 <= j < i ==> !occurs_at(s, pat, j)
}

/// The new name for `name`: everything up to and including the first
/// occurrence of `ext`, provided something follows that occurrence.
pub open spec fn stripped(name: Seq<char>, ext: Seq<char>) -> Option<Seq<char>> {
    if exists|i: int| is_first_occurrence(name, ext, i) {
        let i = choose|i: int| is_first_occurrence(name, ext, i);
        if i + ext.len() < name.len() {
            Some(name.subrange(0, i) + ext)
        } else {
            None
        }
    } else {
        None
    }
}

proof fn lemma_first_occurrence_unique(s: Seq<char>, pat: Seq<char>, i: int, j: int)
    requires
        is_first_occurrence(s, pat, i),
        is_first_occurrence(s, pat, j),
    ensures
        i == j,
{
}

fn matches_at(s: &Vec<char>, pat: &Vec<char>, i: usize) -> (b: bool)
    requires
        i + pat@.len() <= s@.len(),
    ensures
        b == occurs_at(s@, pat@, i as int),
{
    let m = pat.len();
    let n = s.len();
    let mut k: usize = 0;
    while k < m
        invariant
            m == pat@.len(),
            n == s@.len(),
            i + m <= s@.len(),
            k <= m,
            forall|t: int| 0 <= t < k ==> s@[i + t] == pat@[t],
        decreases m - k,
    {
        if s[i + k] != pat[k] {
            assert(s@.subrange(i as int, i + m)[k as int] != pat@[k as int]);
            return false;
        }
        k = k + 1;
    }
    assert(s@.subrange(i as int, i + m) =~= pat@);
    true
}

fn find_first(s: &Vec<char>, pat: &Vec<char>) -> (r: Option<usize>)
    ensures
        r matches Some(i) ==> is_first_occurrence(s@, pat@, i as int),
        r is None ==> forall|i: int| !occurs_at(s@, pat@, i),
{
    let n = s.len();
    let m = pat.len();
    if m > n {
        return None;
    }
    let last = n - m;
    let mut i: usize = 0;
    loop
        invariant
            n == s@.len(),
            m == pat@.len(),
            last == n - m,
            i <= last,
            forall|j: int| 0 <= j < i ==> !occurs_at(s@, pat@, j),
        decreases last - i,
    {
        if matches_at(s, pat, i) {
            return Some(i);
        }
        if i == last {
            return None;
        }
        i = i + 1;
    }
}

/// Cuts whatever follows the first occurrence of `ext` in `name`.
/// Gives `None` where `ext` does not occur, or where its first
/// occurrence already ends the name.
pub fn strip_post_ext(name: &str, ext: &str) -> (r: Option<String>)
    ensures
        r.deep_view() == stripped(name@, ext@),
{
    let nv = chars_of(name);
    let ev = chars_of(ext);
    match find_first(&nv, &ev) {
        Some(i) => {
            proof {
                assert forall|j: int| is_first_occurrence(name@, ext@, j) implies j == i by {
                    lemma_first_occurrence_unique(name@, ext@, i as int, j);
                }
            }
            if ev.len() < nv.len() - i {
                let pre = substring(name, 0, i);
                Some(pre.concat(ext))
            } else {
                None
            }
        },
        None => None,
    }
}

/// A proposed rename of one file, and whether to carry it out.
#[derive(Debug)]
pub struct Rename {
    pub from: String,
    pub to: String,
    pub perform: bool,
}

impl Rename {
    pub open spec fn view(&self) -> (Seq<char>, Seq<char>, bool) {
        (self.from@, self.to@, self.perform)
    }
}

/// The renames for `files`, in their order: one for each file that
/// `stripped` gives a new name, a file named twice counted once, each
/// carried out unless this is a dry run.
pub open spec fn planned_renames(files: Seq<Seq<char>>, ext: Seq<char>, dry_run: bool) -> Seq<
    (Seq<char>, Seq<char>, bool),
>
    decreases files.len(),
{
    if files.len() == 0 {
        seq![]
    } else {
        let prev = planned_renames(files.drop_last(), ext, dry_run);
        let f = files.last();
        match stripped(f, ext) {
            Some(t) => if files.drop_last().contains(f) {
                prev
            } else {
                prev.push((f, t, !dry_run))
            },
            None => prev,
        }
    }
}

/// Whether `files[k]` stands among the files before it.
fn named_before(files: &Vec<String>, k: usize) -> (b: bool)
    requires
        k < files@.len(),
    ensures
        b == files.deep_view().subrange(0, k as int).contains(files.deep_view()[k as int]),
{
    let ghost before = files.deep_view().subrange(0, k as int);
    let mut i: usize = 0;
    while i < k
        invariant
            k < files@.len(),
            i <= k,
            before == files.deep_view().subrange(0, k as int),
            forall|j: int| 0 <= j < i ==> before[j] != files.deep_view()[k as int],
        decreases k - i,
    {
        assert(before[i as int] == files@[i as int]@);
        if files[i] == files[k] {
            return true;
        }
        i = i + 1;
    }
    false
}

/// The renames that truncate each of `files` after the first occurrence of
/// `ext`; none is carried out on a dry run.
pub fn plan_renames(files: &Vec<String>, ext: &str, dry_run: bool) -> (r: Vec<Rename>)
    ensures
        r@.map_values(|x: Rename| x.view()) == planned_renames(files.deep_view(), ext@, dry_run),
{
    let n = files.len();
    let mut r: Vec<Rename> = Vec::new();
    let mut k: usize = 0;
    while k < n
        invariant
            n == files@.len(),
            k <= n,
            r@.map_values(|x: Rename| x.view()) == planned_renames(
                files.deep_view().subrange(0, k as int),
                ext@,
                dry_run,
            ),
        decreases n - k,
    {
        let ghost fs = files.deep_view().subrange(0, k + 1);
        assert(fs.drop_last() =~= files.deep_view().subrange(0, k as int));
        assert(fs.last() == files@[k as int]@);
        let seen = named_before(files, k);
        let ghost before = r@;
        match strip_post_ext(files[k].as_str(), ext) {
            Some(to) => {
                if !seen {
                    r.push(Rename { from: files[k].clone(), to, perform: !dry_run });
                    assert(r@.map_values(|x: Rename| x.view()) =~= before.map_values(
                        |x: Rename| x.view(),
                    ).push((files@[k as int]@, to@, !dry_run)));
                }
            },
            None => {},
        }
        k = k + 1;
    }
    assert(files.deep_view().subrange(0, n as int) =~= files.deep_view());
    r
}

/// A dry run proposes exactly the renames that a real run carries out, in
/// the same order, and carries out none of them.
pub proof fn dry_run_only_reports(files: Seq<Seq<char>>, ext: Seq<char>)
    ensures
        planned_renames(files, ext, true).len() == planned_renames(files, ext, false).len(),
        forall|k: int|
            0 <= k < planned_renames(files, ext, true).len() ==> {
                let d = #[trigger] planned_renames(files, ext, true)[k];
                let w = planned_renames(files, ext, false)[k];
                &&& d.0 == w.0
                &&& d.1 == w.1
                &&& !d.2
                &&& w.2
            },
    decreases files.len(),
{
    if files.len() > 0 {
        dry_run_only_reports(files.drop_last(), ext);
    }
}

} // verus!
