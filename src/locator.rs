use vstd::prelude::*;
use crate::paths::{join, join_path};
use crate::search::{
    dedup, first_match, lemma_dedup_front, lemma_dedup_same_entries, lemma_dedup_unique, lemma_dedup_first_match, lemma_first_match_at, lemma_first_match_none,
    lemma_views_push, views,
};

verus! {

/// The build configuration file that marks a project root.
pub open spec fn build_config() -> Seq<char> {
    "CMakeLists.txt"@
}

/// The application entry point that a project root holds at this relative path.
pub open spec fn entry_point() -> Seq<char> {
    "src/app/main.cpp"@
}

/// The view of an optional string.
pub open spec fn opt_view(o: Option<String>) -> Option<Seq<char>> {
    match o {
        Some(s) => Some(s@),
        None => None,
    }
}

/// `probe` answered `answer` when it was asked about a string whose view is `p`.
pub open spec fn answered<F: Fn(&String) -> bool>(probe: F, p: Seq<char>, answer: bool) -> bool {
    exists|s: String| s@ == p && #[trigger] probe.ensures((&s,), answer)
}

/// Every answer of `probe` agrees with the set of existing files `fs`.
pub open spec fn reports<F: Fn(&String) -> bool>(probe: F, fs: spec_fn(Seq<char>) -> bool) -> bool {
    forall|s: String, b: bool| #[trigger] probe.ensures((&s,), b) ==> b == fs(s@)
}

/// Within the set of existing files `fs`, `p` is a project root: it holds both
/// the build configuration file and the application entry point.
pub open spec fn root_valid(fs: spec_fn(Seq<char>) -> bool, p: Seq<char>) -> bool {
    fs(join(p, build_config())) && fs(join(p, entry_point()))
}

/// The answers of `is_file` that make `p` a project root (`verdict` true) or
/// rule it out (`verdict` false).
pub open spec fn root_answer<F: Fn(&String) -> bool>(is_file: F, p: Seq<char>, verdict: bool) -> bool {
    if verdict {
        answered(is_file, join(p, build_config()), true) && answered(
            is_file,
            join(p, entry_point()),
            true,
        )
    } else {
        answered(is_file, join(p, build_config()), false) || answered(
            is_file,
            join(p, entry_point()),
            false,
        )
    }
}

/// Candidates in priority order: the override, then the working directory and
/// its ancestors from nearest to furthest, then the fallback.
pub open spec fn candidate_list(
    override_root: Option<Seq<char>>,
    ancestors: Seq<Seq<char>>,
    fallback: Seq<char>,
) -> Seq<Seq<char>> {
    let head = match override_root {
        Some(o) => seq![o],
        None => Seq::empty(),
    };
    head + ancestors + seq![fallback]
}

/// The order in which candidates are tested: each distinct path once, at its
/// first position.
pub open spec fn search_order(
    override_root: Option<Seq<char>>,
    ancestors: Seq<Seq<char>>,
    fallback: Seq<char>,
) -> Seq<Seq<char>> {
    dedup(candidate_list(override_root, ancestors, fallback))
}

/// The root that discovery finds when `fs` is the set of existing files.
pub open spec fn discovered(
    override_root: Option<Seq<char>>,
    ancestors: Seq<Seq<char>>,
    fallback: Seq<char>,
    fs: spec_fn(Seq<char>) -> bool,
) -> Option<Seq<char>> {
    first_match(candidate_list(override_root, ancestors, fallback), valid_in(fs))
}

/// The predicate "is a project root" over the set of existing files `fs`.
pub open spec fn valid_in(fs: spec_fn(Seq<char>) -> bool) -> spec_fn(Seq<char>) -> bool {
    |p: Seq<char>| root_valid(fs, p)
}

/// Whether `v` holds a string equal to `p`.
fn contains_path(v: &Vec<String>, p: &String) -> (r: bool)
    ensures
        r == views(v@).contains(p@),
{
    let mut i: usize = 0;
    while i < v.len()
        invariant
            i <= v.len(),
            forall|j: int| 0 <= j < i ==> views(v@)[j] != p@,
        decreases v.len() - i,
    {
        if v[i] == *p {
            assert(views(v@)[i as int] == p@);
            return true;
        }
        i += 1;
    }
    false
}

/// The candidate roots in the order they are tested, repeated paths dropped.
pub fn search_candidates(override_root: Option<String>, ancestors: Vec<String>, fallback: String) -> (r: Vec<String>)
    ensures
        views(r@) == search_order(opt_view(override_root), views(ancestors@), fallback@),
{
    let ghost list = candidate_list(opt_view(override_root), views(ancestors@), fallback@);
    let mut all: Vec<String> = Vec::new();
    match override_root {
        Some(o) => {
            proof {
                lemma_views_push(all@, o);
            }
            all.push(o);
        },
        None => {},
    }
    let ghost start = views(all@);
    let mut i: usize = 0;
    while i < ancestors.len()
        invariant
            i <= ancestors.len(),
            views(all@) == start + views(ancestors@).take(i as int),
        decreases ancestors.len() - i,
    {
        proof {
            lemma_views_push(all@, ancestors@[i as int]);
            assert(views(ancestors@).take(i + 1) =~= views(ancestors@).take(i as int).push(
                ancestors@[i as int]@,
            ));
        }
        all.push(ancestors[i].clone());
        i += 1;
    }
    proof {
        lemma_views_push(all@, fallback);
        assert(views(ancestors@).take(i as int) =~= views(ancestors@));
    }
    all.push(fallback);
    assert(views(all@) =~= list);
    let mut out: Vec<String> = Vec::new();
    let mut k: usize = 0;
    while k < all.len()
        invariant
            k <= all.len(),
            views(all@) == list,
            views(out@) == dedup(list.take(k as int)),
        decreases all.len() - k,
    {
        let ghost prefix = list.take(k + 1);
        assert(prefix.drop_last() =~= list.take(k as int));
        assert(prefix.last() == all@[k as int]@);
        if !contains_path(&out, &all[k]) {
            proof {
                lemma_views_push(out@, all@[k as int]);
            }
            out.push(all[k].clone());
        }
        k += 1;
    }
    assert(list.take(k as int) =~= list);
    out
}

/// Whether `path` holds both the build configuration file and the application
/// entry point, as `is_file` reports them.
pub fn is_project_root<F: Fn(&String) -> bool>(path: &String, is_file: &F) -> (r: bool)
    requires
        forall|s: String| is_file.requires((&s,)),
    ensures
        root_answer(*is_file, path@, r),
        forall|fs: spec_fn(Seq<char>) -> bool| reports(*is_file, fs) ==> r == root_valid(fs, path@),
{
    let config = join_path(path, "CMakeLists.txt");
    let has_config = is_file(&config);
    if !has_config {
        return false;
    }
    let entry = join_path(path, "src/app/main.cpp");
    let has_entry = is_file(&entry);
    has_entry
}

/// An answer of a probe that reports `fs` agrees with `fs`.
pub proof fn lemma_answer_agrees<F: Fn(&String) -> bool>(
    is_file: F,
    fs: spec_fn(Seq<char>) -> bool,
    p: Seq<char>,
    b: bool,
)
    requires
        reports(is_file, fs),
        answered(is_file, p, b),
    ensures
        fs(p) == b,
{
    let s = choose|s: String| s@ == p && #[trigger] is_file.ensures((&s,), b);
    assert(fs(s@) == b);
}

/// Answers of a probe that reports `fs` decide root validity within `fs`.
proof fn lemma_root_answer_agrees<F: Fn(&String) -> bool>(
    is_file: F,
    fs: spec_fn(Seq<char>) -> bool,
    p: Seq<char>,
    verdict: bool,
)
    requires
        reports(is_file, fs),
        root_answer(is_file, p, verdict),
    ensures
        root_valid(fs, p) == verdict,
{
    let c = join(p, build_config());
    let e = join(p, entry_point());
    if verdict {
        lemma_answer_agrees(is_file, fs, c, true);
        lemma_answer_agrees(is_file, fs, e, true);
    } else if answered(is_file, c, false) {
        lemma_answer_agrees(is_file, fs, c, false);
    } else {
        lemma_answer_agrees(is_file, fs, e, false);
    }
}

/// Testing `order` with `is_file` stops at index `k`: the candidate there was
/// found to be a project root and every earlier one was ruled out.
pub open spec fn stops_at<F: Fn(&String) -> bool>(is_file: F, order: Seq<Seq<char>>, k: int) -> bool {
    &&& 0 <= k < order.len()
    &&& root_answer(is_file, order[k], true)
    &&& forall|j: int| 0 <= j < k ==> root_answer(is_file, #[trigger] order[j], false)
}

/// Finds the project root: the first candidate of [`search_order`] that
/// `is_file` reports as holding both root markers. Each distinct candidate is
/// tested at most once, in that order, and testing stops at the first root.
pub fn discover_root<F: Fn(&String) -> bool>(
    override_root: Option<String>,
    ancestors: Vec<String>,
    fallback: String,
    is_file: &F,
) -> (r: Option<String>)
    requires
        forall|s: String| is_file.requires((&s,)),
    ensures
        ({
            let order = search_order(opt_view(override_root), views(ancestors@), fallback@);
            match r {
                Some(root) => exists|k: int| #[trigger] stops_at(*is_file, order, k) && order[k] == root@,
                None => forall|j: int|
                    0 <= j < order.len() ==> root_answer(*is_file, #[trigger] order[j], false),
            }
        }),
        forall|fs: spec_fn(Seq<char>) -> bool|
            reports(*is_file, fs) ==> opt_view(r) == discovered(
                opt_view(override_root),
                views(ancestors@),
                fallback@,
                fs,
            ),
{
    let ghost list = candidate_list(opt_view(override_root), views(ancestors@), fallback@);
    let order = search_candidates(override_root, ancestors, fallback);
    let ghost seen = views(order@);
    let mut i: usize = 0;
    while i < order.len()
        invariant
            i <= order.len(),
            seen == views(order@),
            seen == dedup(list),
            list == candidate_list(opt_view(override_root), views(ancestors@), fallback@),
            forall|s: String| is_file.requires((&s,)),
            forall|j: int| 0 <= j < i ==> root_answer(*is_file, #[trigger] seen[j], false),
        decreases order.len() - i,
    {
        if is_project_root(&order[i], is_file) {
            let found = order[i].clone();
            proof {
                assert(seen[i as int] == found@);
                assert(root_answer(*is_file, seen[i as int], true));
                assert(stops_at(*is_file, seen, i as int));
                assert(seen == search_order(opt_view(override_root), views(ancestors@), fallback@));
                assert forall|fs: spec_fn(Seq<char>) -> bool| reports(*is_file, fs) implies Some(
                    found@,
                ) == first_match(list, valid_in(fs)) by {
                    assert forall|j: int| 0 <= j < i implies !valid_in(fs)(#[trigger] seen[j]) by {
                        lemma_root_answer_agrees(*is_file, fs, seen[j], false);
                    }
                    lemma_root_answer_agrees(*is_file, fs, found@, true);
                    lemma_first_match_at(seen, valid_in(fs), i as int);
                    lemma_dedup_first_match(list, valid_in(fs));
                }
            }
            return Some(found);
        }
        i += 1;
    }
    proof {
        assert forall|fs: spec_fn(Seq<char>) -> bool| reports(*is_file, fs) implies first_match(
            list,
            valid_in(fs),
        ) is None by {
            assert forall|j: int| 0 <= j < seen.len() implies !valid_in(fs)(#[trigger] seen[j]) by {
                lemma_root_answer_agrees(*is_file, fs, seen[j], false);
            }
            lemma_first_match_none(seen, valid_in(fs));
            lemma_dedup_first_match(list, valid_in(fs));
        }
    }
    None
}

/// An override that names a project root is chosen, ahead of every ancestor of
/// the working directory.
pub proof fn law_override_wins(
    root: Seq<char>,
    ancestors: Seq<Seq<char>>,
    fallback: Seq<char>,
    fs: spec_fn(Seq<char>) -> bool,
)
    requires
        root_valid(fs, root),
    ensures
        discovered(Some(root), ancestors, fallback, fs) == Some(root),
{
    let list = candidate_list(Some(root), ancestors, fallback);
    assert(list[0] == root);
    lemma_first_match_at(list, valid_in(fs), 0);
}

/// Without an override, discovery returns the nearest ancestor of the working
/// directory that is a project root.
pub proof fn law_nearest_ancestor(
    ancestors: Seq<Seq<char>>,
    fallback: Seq<char>,
    fs: spec_fn(Seq<char>) -> bool,
    k: int,
)
    requires
        0 <= k < ancestors.len(),
        root_valid(fs, ancestors[k]),
        forall|j: int| 0 <= j < k ==> !root_valid(fs, #[trigger] ancestors[j]),
    ensures
        discovered(None, ancestors, fallback, fs) == Some(ancestors[k]),
{
    let list = candidate_list(None, ancestors, fallback);
    assert(list[k] == ancestors[k]);
    assert forall|j: int| 0 <= j < k implies !valid_in(fs)(#[trigger] list[j]) by {
        assert(list[j] == ancestors[j]);
    }
    lemma_first_match_at(list, valid_in(fs), k);
}

/// When no candidate is a project root, discovery finds nothing.
pub proof fn law_no_root_found(
    override_root: Option<Seq<char>>,
    ancestors: Seq<Seq<char>>,
    fallback: Seq<char>,
    fs: spec_fn(Seq<char>) -> bool,
)
    requires
        forall|p: Seq<char>|
            candidate_list(override_root, ancestors, fallback).contains(p) ==> !root_valid(fs, p),
    ensures
        discovered(override_root, ancestors, fallback, fs) is None,
{
    let list = candidate_list(override_root, ancestors, fallback);
    assert forall|j: int| 0 <= j < list.len() implies !valid_in(fs)(#[trigger] list[j]) by {
        assert(list.contains(list[j]));
    }
    lemma_first_match_none(list, valid_in(fs));
}

/// The search order tests every candidate path exactly once: it holds no
/// path twice and holds each candidate. In particular an override that is
/// also an ancestor of the working directory stands only in front.
pub proof fn law_each_path_once(root: Seq<char>, ancestors: Seq<Seq<char>>, fallback: Seq<char>)
    requires
        ancestors.contains(root),
    ensures
        search_order(Some(root), ancestors, fallback).no_duplicates(),
        forall|p: Seq<char>|
            search_order(Some(root), ancestors, fallback).contains(p) <==> candidate_list(
                Some(root),
                ancestors,
                fallback,
            ).contains(p),
        search_order(Some(root), ancestors, fallback)[0] == root,
        forall|j: int|
            0 < j < search_order(Some(root), ancestors, fallback).len() ==> #[trigger] search_order(
                Some(root),
                ancestors,
                fallback,
            )[j] != root,
{
    let list = candidate_list(Some(root), ancestors, fallback);
    assert(list[0] == root);
    lemma_dedup_unique(list);
    lemma_dedup_same_entries(list);
    lemma_dedup_front(list);
}

} // verus!
