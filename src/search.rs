use vstd::prelude::*;

verus! {

/// The first entry of `s` that satisfies `ok`, or `None` when no entry does.
pub open spec fn first_match(s: Seq<Seq<char>>, ok: spec_fn(Seq<char>) -> bool) -> Option<Seq<char>>
    decreases s.len(),
{
    if s.len() == 0 {
        None
    } else {
        match first_match(s.drop_last(), ok) {
            Some(p) => Some(p),
            None => if ok(s.last()) {
                Some(s.last())
            } else {
                None
            },
        }
    }
}

/// `s` with every entry after its first occurrence removed; order is kept.
pub open spec fn dedup(s: Seq<Seq<char>>) -> Seq<Seq<char>>
    decreases s.len(),
{
    if s.len() == 0 {
        Seq::empty()
    } else {
        let d = dedup(s.drop_last());
        if d.contains(s.last()) {
            d
        } else {
            d.push(s.last())
        }
    }
}

/// The views of a sequence of strings.
pub open spec fn views(v: Seq<String>) -> Seq<Seq<char>> {
    v.map_values(|s: String| s@)
}

/// Pushing a string appends its view.
pub proof fn lemma_views_push(v: Seq<String>, s: String)
    ensures
        views(v.push(s)) == views(v).push(s@),
{
    assert(views(v.push(s)) =~= views(v).push(s@));
}

/// `first_match` is `None` exactly when no entry satisfies `ok`.
pub proof fn lemma_first_match_none(s: Seq<Seq<char>>, ok: spec_fn(Seq<char>) -> bool)
    ensures
        first_match(s, ok) is None <==> forall|j: int| 0 <= j < s.len() ==> !ok(#[trigger] s[j]),
    decreases s.len(),
{
    if s.len() > 0 {
        lemma_first_match_none(s.drop_last(), ok);
        if first_match(s, ok) is None {
            assert forall|j: int| 0 <= j < s.len() implies !ok(#[trigger] s[j]) by {
                if j < s.len() - 1 {
                    assert(s[j] == s.drop_last()[j]);
                }
            }
        } else {
            if forall|j: int| 0 <= j < s.len() ==> !ok(#[trigger] s[j]) {
                assert forall|j: int| 0 <= j < s.drop_last().len() implies !ok(
                    #[trigger] s.drop_last()[j],
                ) by {
                    assert(s.drop_last()[j] == s[j]);
                }
                assert(!ok(s[s.len() - 1]));
            }
        }
    }
}

/// When `s[k]` is the earliest entry satisfying `ok`, `first_match` returns it.
pub proof fn lemma_first_match_at(s: Seq<Seq<char>>, ok: spec_fn(Seq<char>) -> bool, k: int)
    requires
        0 <= k < s.len(),
        ok(s[k]),
        forall|j: int| 0 <= j < k ==> !ok(#[trigger] s[j]),
    ensures
        first_match(s, ok) == Some(s[k]),
    decreases s.len(),
{
    let t = s.drop_last();
    if k < s.len() - 1 {
        assert(t[k] == s[k]);
        assert forall|j: int| 0 <= j < k implies !ok(#[trigger] t[j]) by {
            assert(t[j] == s[j]);
        }
        lemma_first_match_at(t, ok, k);
    } else {
        lemma_first_match_none(t, ok);
        assert forall|j: int| 0 <= j < t.len() implies !ok(#[trigger] t[j]) by {
            assert(t[j] == s[j]);
        }
    }
}

/// Every entry of `dedup(s)` is an entry of `s`, and the other way round.
pub proof fn lemma_dedup_same_entries(s: Seq<Seq<char>>)
    ensures
        forall|x: Seq<char>| dedup(s).contains(x) <==> s.contains(x),
    decreases s.len(),
{
    if s.len() > 0 {
        let t = s.drop_last();
        lemma_dedup_same_entries(t);
        assert forall|x: Seq<char>| dedup(s).contains(x) <==> s.contains(x) by {
            if s.contains(x) && x != s.last() {
                let j = choose|j: int| 0 <= j < s.len() && s[j] == x;
                assert(t[j] == x);
            }
            if t.contains(x) {
                let j = choose|j: int| 0 <= j < t.len() && t[j] == x;
                assert(s[j] == x);
            }
            if dedup(s) != dedup(t) {
                assert(dedup(s) == dedup(t).push(s.last()));
                if dedup(s).contains(x) && x != s.last() {
                    let j = choose|j: int| 0 <= j < dedup(s).len() && dedup(s)[j] == x;
                    assert(dedup(t)[j] == x);
                }
                if dedup(t).contains(x) {
                    let j = choose|j: int| 0 <= j < dedup(t).len() && dedup(t)[j] == x;
                    assert(dedup(s)[j] == x);
                }
                assert(dedup(s)[dedup(s).len() - 1] == s.last());
            }
            assert(s[s.len() - 1] == s.last());
        }
    }
}

/// `dedup(s)` holds no entry twice.
pub proof fn lemma_dedup_unique(s: Seq<Seq<char>>)
    ensures
        dedup(s).no_duplicates(),
    decreases s.len(),
{
    if s.len() > 0 {
        let t = s.drop_last();
        lemma_dedup_unique(t);
        let d = dedup(t);
        if !d.contains(s.last()) {
            let e = d.push(s.last());
            assert forall|i: int, j: int| 0 <= i < e.len() && 0 <= j < e.len() && i != j implies e[i]
                != e[j] by {
                if i < d.len() && j < d.len() {
                    assert(e[i] == d[i] && e[j] == d[j]);
                } else if i < d.len() {
                    assert(e[i] == d[i]);
                } else if j < d.len() {
                    assert(e[j] == d[j]);
                }
            }
        }
    }
}

/// A non-empty sequence keeps its first entry in front after `dedup`.
pub proof fn lemma_dedup_front(s: Seq<Seq<char>>)
    requires
        s.len() > 0,
    ensures
        dedup(s).len() > 0,
        dedup(s)[0] == s[0],
    decreases s.len(),
{
    if s.len() > 1 {
        let t = s.drop_last();
        lemma_dedup_front(t);
        assert(t[0] == s[0]);
    } else {
        assert(dedup(s.drop_last()) =~= Seq::<Seq<char>>::empty());
    }
}

/// Removing repeated entries does not change which entry is found first.
pub proof fn lemma_dedup_first_match(s: Seq<Seq<char>>, ok: spec_fn(Seq<char>) -> bool)
    ensures
        first_match(dedup(s), ok) == first_match(s, ok),
    decreases s.len(),
{
    if s.len() > 0 {
        let t = s.drop_last();
        lemma_dedup_first_match(t, ok);
        let d = dedup(t);
        if d.contains(s.last()) {
            if first_match(t, ok) is None {
                lemma_first_match_none(t, ok);
                lemma_dedup_same_entries(t);
                assert(t.contains(s.last()));
                let j = choose|j: int| 0 <= j < t.len() && t[j] == s.last();
                assert(!ok(t[j]));
            }
        } else {
            assert(d.push(s.last()).drop_last() =~= d);
        }
    }
}

} // verus!
