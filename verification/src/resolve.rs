use vstd::prelude::*;
use vstd::multiset::Multiset;
use crate::errors::PbError;
use crate::options::SortMode;
use crate::text::{lex_le, lemma_lex_le_refl, lemma_lex_le_total, lemma_lex_le_transitive, str_eq,
    str_lex_le};

verus! {

/// The character sequences of a list of path strings.
pub open spec fn path_views(files: Seq<String>) -> Seq<Seq<char>> {
    crate::text::str_views(files)
}

/// One resolution step: a canonical path joins the list only when it is not
/// already present; the list keeps first-discovery order.
pub open spec fn add_path(paths: Seq<Seq<char>>, p: Seq<char>) -> Seq<Seq<char>> {
    if paths.contains(p) {
        paths
    } else {
        paths.push(p)
    }
}

/// Resolution of a whole discovery stream, one path at a time.
pub open spec fn add_paths(paths: Seq<Seq<char>>, ps: Seq<Seq<char>>) -> Seq<Seq<char>>
    decreases ps.len(),
{
    if ps.len() == 0 {
        paths
    } else {
        add_paths(add_path(paths, ps[0]), ps.drop_first())
    }
}

/// The list a discovery stream resolves to, starting from nothing.
pub open spec fn resolve_order(ps: Seq<Seq<char>>) -> Seq<Seq<char>> {
    add_paths(Seq::<Seq<char>>::empty(), ps)
}

/// Lexicographically non-decreasing, the order of a `Name`-sorted list.
pub open spec fn sorted_lex(paths: Seq<Seq<char>>) -> bool {
    forall|i: int, j: int| 0 <= i < j < paths.len() ==> lex_le(paths[i], paths[j])
}

/// What resolution does with one input, decided from its metadata.
#[derive(Clone, Copy, PartialEq, Eq, Structural, Debug)]
pub enum InputAction {
    /// A regular file: canonicalize it and add it directly.
    AddFile,
    /// A directory: expand it with the ignore-aware walk.
    WalkDir,
}

/// Decide what to do with one input from its metadata: regular files are
/// added, directories are walked, and anything else is invalid input.
pub fn input_action(is_file: bool, is_dir: bool, path: &String) -> (r: Result<
    InputAction,
    PbError,
>)
    ensures
        is_file ==> r matches Ok(InputAction::AddFile),
        !is_file && is_dir ==> r matches Ok(InputAction::WalkDir),
        !is_file && !is_dir ==> (r matches Err(e) && e matches PbError::InvalidInput { path: p }
            && p@ == path@),
{
    if is_file {
        Ok(InputAction::AddFile)
    } else if is_dir {
        Ok(InputAction::WalkDir)
    } else {
        Err(PbError::InvalidInput { path: path.clone() })
    }
}

/// Accumulates canonical paths in first-discovery order, each exactly once.
#[derive(Debug)]
pub struct Resolver {
    pub files: Vec<String>,
}

impl Resolver {
    /// The canonical paths gathered so far, in discovery order.
    pub open spec fn paths(self) -> Seq<Seq<char>> {
        path_views(self.files@)
    }

    /// No canonical path occurs twice.
    pub open spec fn inv(self) -> bool {
        self.paths().no_duplicates()
    }

    pub fn new() -> (r: Resolver)
        ensures
            r.paths() == Seq::<Seq<char>>::empty(),
            r.inv(),
    {
        let r = Resolver { files: Vec::new() };
        proof {
            assert(r.paths() =~= Seq::<Seq<char>>::empty());
        }
        r
    }

    /// Record one canonical path: appended when new, dropped when already seen.
    pub fn add_file(&mut self, path: String)
        requires
            old(self).inv(),
        ensures
            final(self).paths() == add_path(old(self).paths(), path@),
            final(self).inv(),
    {
        let n = self.files.len();
        let mut i: usize = 0;
        while i < n
            invariant
                self.files@ == old(self).files@,
                self.inv(),
                n == self.files@.len(),
                i <= n,
                forall|j: int| 0 <= j < i ==> self.files@[j]@ != path@,
            decreases n - i,
        {
            if str_eq(self.files[i].as_str(), path.as_str()) {
                proof {
                    assert(self.paths()[i as int] == path@);
                    assert(self.paths().contains(path@));
                }
                return ;
            }
            i += 1;
        }
        proof {
            assert(forall|j: int| 0 <= j < self.paths().len() ==> self.paths()[j] != path@);
            assert(!self.paths().contains(path@));
        }
        let ghost old_files = self.files@;
        self.files.push(path);
        proof {
            assert(self.paths() =~= path_views(old_files).push(path@));
            assert forall|a: int, b: int|
                0 <= a < b < self.paths().len() implies self.paths()[a] != self.paths()[b] by {
                if b < self.paths().len() - 1 {
                    assert(path_views(old_files)[a] != path_views(old_files)[b]);
                } else {
                    assert(!path_views(old_files).contains(path_views(old_files)[a]) == false);
                }
            }
        }
    }

    /// Close resolution: order the list as requested and demand that at least
    /// one file was found.
    pub fn finish(self, sort: SortMode) -> (r: Result<Vec<String>, PbError>)
        requires
            self.inv(),
        ensures
            match r {
                Ok(v) => {
                    &&& self.paths().len() > 0
                    &&& path_views(v@).no_duplicates()
                    &&& (sort == SortMode::Args ==> v@ == self.files@)
                    &&& (sort == SortMode::Name ==> sorted_lex(path_views(v@)) && path_views(
                        v@,
                    ).to_multiset() == self.paths().to_multiset())
                },
                Err(e) => (e matches PbError::NoFilesFound) && self.paths().len() == 0,
            },
    {
        if self.files.len() == 0 {
            return Err(PbError::NoFilesFound);
        }
        let ghost in_paths = self.paths();
        let ordered = order_files(self.files, sort);
        proof {
            if sort == SortMode::Name {
                lemma_permutation_preserves_no_duplicates(in_paths, path_views(ordered@));
            }
        }
        Ok(ordered)
    }
}

/// Index of the first discovery of `p` in a stream that contains it.
pub open spec fn first_index(ps: Seq<Seq<char>>, p: Seq<char>) -> int
    decreases ps.len(),
{
    if ps.len() == 0 {
        0
    } else if ps[0] == p {
        0
    } else {
        1 + first_index(ps.drop_first(), p)
    }
}

proof fn lemma_first_index(ps: Seq<Seq<char>>, p: Seq<char>)
    requires
        ps.contains(p),
    ensures
        0 <= first_index(ps, p) < ps.len(),
        ps[first_index(ps, p)] == p,
        forall|j: int| 0 <= j < first_index(ps, p) ==> ps[j] != p,
    decreases ps.len(),
{
    if ps[0] != p {
        let i = choose|i: int| 0 <= i < ps.len() && ps[i] == p;
        assert(ps.drop_first()[i - 1] == p);
        assert(ps.drop_first().contains(p));
        lemma_first_index(ps.drop_first(), p);
        assert forall|j: int| 0 <= j < first_index(ps, p) implies ps[j] != p by {
            if j > 0 {
                assert(ps.drop_first()[j - 1] != p);
            }
        }
    }
}

/// Resolution of a concatenated stream works left to right.
proof fn lemma_add_paths_concat(acc: Seq<Seq<char>>, a: Seq<Seq<char>>, b: Seq<Seq<char>>)
    ensures
        add_paths(acc, a + b) == add_paths(add_paths(acc, a), b),
    decreases a.len(),
{
    if a.len() == 0 {
        assert(a + b =~= b);
    } else {
        assert((a + b)[0] == a[0]);
        assert((a + b).drop_first() =~= a.drop_first() + b);
        lemma_add_paths_concat(add_path(acc, a[0]), a.drop_first(), b);
    }
}

/// Later discoveries never disturb what is already resolved: the resolution
/// so far stays a prefix.
proof fn lemma_add_paths_prefix(acc: Seq<Seq<char>>, ps: Seq<Seq<char>>)
    ensures
        acc.len() <= add_paths(acc, ps).len(),
        forall|i: int| 0 <= i < acc.len() ==> add_paths(acc, ps)[i] == acc[i],
    decreases ps.len(),
{
    if ps.len() > 0 {
        lemma_add_paths_prefix(add_path(acc, ps[0]), ps.drop_first());
        assert forall|i: int| 0 <= i < acc.len() implies add_paths(acc, ps)[i] == acc[i] by {
            assert(add_paths(acc, ps) == add_paths(add_path(acc, ps[0]), ps.drop_first()));
            assert(add_path(acc, ps[0])[i] == acc[i]);
        }
    }
}

/// Resolution keeps exactly the paths the stream discovered.
proof fn lemma_add_paths_membership(acc: Seq<Seq<char>>, ps: Seq<Seq<char>>, p: Seq<char>)
    ensures
        add_paths(acc, ps).contains(p) <==> acc.contains(p) || ps.contains(p),
    decreases ps.len(),
{
    if ps.len() == 0 {
        assert(!ps.contains(p));
    } else {
        lemma_add_paths_membership(add_path(acc, ps[0]), ps.drop_first(), p);
        assert(add_path(acc, ps[0]).contains(p) <==> acc.contains(p) || p == ps[0]) by {
            if !acc.contains(ps[0]) {
                assert(acc.push(ps[0])[acc.len() as int] == ps[0]);
                if acc.contains(p) {
                    let i = choose|i: int| 0 <= i < acc.len() && acc[i] == p;
                    assert(acc.push(ps[0])[i] == p);
                }
                if acc.push(ps[0]).contains(p) {
                    let i = choose|i: int| 0 <= i < acc.push(ps[0]).len() && acc.push(ps[0])[i]
                        == p;
                    if i < acc.len() {
                        assert(acc[i] == p);
                    } else {
                        assert(p == ps[0]);
                    }
                }
            }
        }
        assert(ps.contains(p) <==> p == ps[0] || ps.drop_first().contains(p)) by {
            if ps.contains(p) && p != ps[0] {
                let i = choose|i: int| 0 <= i < ps.len() && ps[i] == p;
                assert(ps.drop_first()[i - 1] == p);
            }
            if ps.drop_first().contains(p) {
                let i = choose|i: int| 0 <= i < ps.drop_first().len() && ps.drop_first()[i] == p;
                assert(ps[i + 1] == p);
            }
        }
    }
}

/// Resolution never produces a duplicate.
proof fn lemma_add_paths_no_duplicates(acc: Seq<Seq<char>>, ps: Seq<Seq<char>>)
    requires
        acc.no_duplicates(),
    ensures
        add_paths(acc, ps).no_duplicates(),
    decreases ps.len(),
{
    if ps.len() > 0 {
        assert(add_path(acc, ps[0]).no_duplicates()) by {
            if !acc.contains(ps[0]) {
                let a2 = acc.push(ps[0]);
                assert forall|i: int, j: int| 0 <= i < j < a2.len() implies a2[i] != a2[j] by {
                    if j == a2.len() - 1 {
                        assert(!acc.contains(a2[j]));
                        assert(acc[i] == a2[i]);
                    }
                }
            }
        }
        lemma_add_paths_no_duplicates(add_path(acc, ps[0]), ps.drop_first());
    }
}

/// Resolving a duplicate-free stream of existing files as direct arguments
/// yields exactly those files, in argument order.
pub proof fn lemma_resolve_distinct_args(ps: Seq<Seq<char>>)
    requires
        ps.no_duplicates(),
    ensures
        resolve_order(ps) == ps,
{
    lemma_resolve_distinct_args_from(Seq::<Seq<char>>::empty(), ps);
    assert(Seq::<Seq<char>>::empty() + ps =~= ps);
}

proof fn lemma_resolve_distinct_args_from(acc: Seq<Seq<char>>, ps: Seq<Seq<char>>)
    requires
        (acc + ps).no_duplicates(),
    ensures
        add_paths(acc, ps) == acc + ps,
    decreases ps.len(),
{
    if ps.len() == 0 {
        assert(acc + ps =~= acc);
    } else {
        let whole = acc + ps;
        assert(!acc.contains(ps[0])) by {
            if acc.contains(ps[0]) {
                let i = choose|i: int| 0 <= i < acc.len() && acc[i] == ps[0];
                assert(whole[i] == whole[acc.len() as int]);
            }
        }
        assert(acc.push(ps[0]) + ps.drop_first() =~= acc + ps);
        lemma_resolve_distinct_args_from(acc.push(ps[0]), ps.drop_first());
    }
}

/// A path discovered several times — as a direct argument and again through a
/// directory walk, or through a symbolic link with the same canonical form —
/// resolves to a single entry, placed where it was first discovered.
pub proof fn lemma_first_discovery(ps: Seq<Seq<char>>, p: Seq<char>)
    requires
        ps.contains(p),
    ensures
        ({
            let r = resolve_order(ps);
            let k = resolve_order(ps.take(first_index(ps, p))).len() as int;
            &&& r.no_duplicates()
            &&& 0 <= k < r.len()
            &&& r[k] == p
            &&& forall|j: int| 0 <= j < r.len() && r[j] == p ==> j == k
        }),
{
    let fi = first_index(ps, p);
    lemma_first_index(ps, p);
    let before = ps.take(fi);
    let a = resolve_order(before);
    let r = resolve_order(ps);
    let k = a.len();

    assert(ps =~= before + (seq![p] + ps.skip(fi + 1))) by {
        assert(ps[fi] == p);
    }
    lemma_add_paths_concat(Seq::<Seq<char>>::empty(), before, seq![p] + ps.skip(fi + 1));
    lemma_add_paths_concat(a, seq![p], ps.skip(fi + 1));
    assert(seq![p].drop_first() =~= Seq::<Seq<char>>::empty());
    assert(add_paths(a, seq![p]) == add_paths(add_path(a, seq![p][0]), seq![p].drop_first()));
    assert(add_paths(add_path(a, p), Seq::<Seq<char>>::empty()) == add_path(a, p));
    assert(add_paths(a, seq![p]) == add_path(a, p));

    assert(!a.contains(p)) by {
        lemma_add_paths_membership(Seq::<Seq<char>>::empty(), before, p);
        if before.contains(p) {
            let i = choose|i: int| 0 <= i < before.len() && before[i] == p;
            assert(ps[i] == p);
        }
    }
    assert(add_path(a, p) == a.push(p));
    assert(a.push(p)[k as int] == p);
    lemma_add_paths_prefix(a.push(p), ps.skip(fi + 1));
    assert(r == add_paths(a.push(p), ps.skip(fi + 1)));
    assert(r[k as int] == p);

    lemma_add_paths_no_duplicates(Seq::<Seq<char>>::empty(), ps);
    assert forall|j: int| 0 <= j < r.len() && r[j] == p implies j == k by {
        if j != k {
            assert(r[j] != r[k as int]);
        }
    }
}

/// Order a file list as configured: `Args` leaves it untouched, `Name` sorts
/// it lexicographically by path; sorting rearranges and never adds or drops.
pub fn order_files(files: Vec<String>, sort: SortMode) -> (r: Vec<String>)
    ensures
        sort == SortMode::Args ==> r@ == files@,
        sort == SortMode::Name ==> sorted_lex(path_views(r@)) && path_views(r@).to_multiset()
            == path_views(files@).to_multiset(),
{
    match sort {
        SortMode::Args => files,
        SortMode::Name => sort_paths(files),
    }
}

proof fn lemma_path_views_push(s: Seq<String>, x: String)
    ensures
        path_views(s.push(x)) =~= path_views(s).push(x@),
{
}

proof fn lemma_path_views_remove(s: Seq<String>, i: int)
    requires
        0 <= i < s.len(),
    ensures
        path_views(s.remove(i)) =~= path_views(s).remove(i),
{
}

/// A list that is a rearrangement of a duplicate-free list is duplicate-free.
pub proof fn lemma_permutation_preserves_no_duplicates(a: Seq<Seq<char>>, b: Seq<Seq<char>>)
    requires
        a.to_multiset() == b.to_multiset(),
        a.no_duplicates(),
    ensures
        b.no_duplicates(),
{
    a.lemma_multiset_has_no_duplicates();
    b.lemma_multiset_has_no_duplicates_conv();
}

/// Selection sort on path strings, in lexicographic code-point order.
fn sort_paths(files: Vec<String>) -> (r: Vec<String>)
    ensures
        sorted_lex(path_views(r@)),
        path_views(r@).to_multiset() == path_views(files@).to_multiset(),
{
    broadcast use vstd::seq_lib::group_to_multiset_ensures;
    broadcast use vstd::multiset::group_multiset_axioms;

    let mut rest = files;
    let mut out: Vec<String> = Vec::new();
    proof {
        assert(path_views(out@).to_multiset().add(path_views(rest@).to_multiset()) =~= path_views(
            files@,
        ).to_multiset());
    }
    while rest.len() > 0
        invariant
            sorted_lex(path_views(out@)),
            path_views(out@).to_multiset().add(path_views(rest@).to_multiset()) == path_views(
                files@,
            ).to_multiset(),
            forall|i: int, j: int|
                0 <= i < out@.len() && 0 <= j < rest@.len() ==> lex_le(out@[i]@, rest@[j]@),
        decreases rest.len(),
    {
        broadcast use vstd::seq_lib::group_to_multiset_ensures;
        broadcast use vstd::multiset::group_multiset_axioms;

        let mut m: usize = 0;
        let mut k: usize = 1;
        proof {
            lemma_lex_le_refl(rest@[0]@);
        }
        while k < rest.len()
            invariant
                rest@.len() > 0,
                m < k,
                k <= rest@.len(),
                forall|j: int| 0 <= j < k ==> lex_le(rest@[m as int]@, rest@[j]@),
            decreases rest@.len() - k,
        {
            if str_lex_le(rest[k].as_str(), rest[m].as_str()) {
                proof {
                    assert forall|j: int| 0 <= j < k + 1 implies lex_le(
                        rest@[k as int]@,
                        rest@[j]@,
                    ) by {
                        if j < k {
                            lemma_lex_le_transitive(rest@[k as int]@, rest@[m as int]@, rest@[j]@);
                        } else {
                            lemma_lex_le_refl(rest@[k as int]@);
                        }
                    }
                }
                m = k;
            } else {
                proof {
                    lemma_lex_le_total(rest@[k as int]@, rest@[m as int]@);
                }
            }
            k += 1;
        }
        let ghost old_rest = rest@;
        let ghost old_out = out@;
        let x = rest.remove(m);
        out.push(x);
        proof {
            lemma_path_views_remove(old_rest, m as int);
            lemma_path_views_push(old_out, x);
            assert(path_views(old_rest)[m as int] == x@);
            assert(path_views(old_rest).contains(x@));
            assert(path_views(rest@).to_multiset() =~= path_views(old_rest).to_multiset().remove(
                x@,
            ));
            assert(path_views(out@).to_multiset() =~= path_views(old_out).to_multiset().insert(x@));
            assert(path_views(out@).to_multiset().add(path_views(rest@).to_multiset())
                =~= path_views(old_out).to_multiset().add(path_views(old_rest).to_multiset()));
            // the pushed minimum keeps the output sorted
            assert forall|i: int, j: int|
                0 <= i < j < out@.len() implies lex_le(path_views(out@)[i], path_views(out@)[j]) by {
                if j < out@.len() - 1 {
                    assert(lex_le(path_views(old_out)[i], path_views(old_out)[j]));
                } else {
                    assert(lex_le(old_out[i]@, old_rest[m as int]@));
                }
            }
            // everything already emitted precedes everything still unsorted
            assert forall|i: int, j: int|
                0 <= i < out@.len() && 0 <= j < rest@.len() implies lex_le(
                out@[i]@,
                rest@[j]@,
            ) by {
                let jo = if j < m { j } else { j + 1 };
                assert(rest@[j] == old_rest[jo]);
                if i < out@.len() - 1 {
                    assert(lex_le(old_out[i]@, old_rest[jo]@));
                } else {
                    assert(lex_le(old_rest[m as int]@, old_rest[jo]@));
                }
            }
        }
    }
    proof {
        assert(path_views(rest@).to_multiset() =~= Multiset::<Seq<char>>::empty());
        assert(path_views(out@).to_multiset() =~= path_views(files@).to_multiset());
    }
    out
}

} // verus!
