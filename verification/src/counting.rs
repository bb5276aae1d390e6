use vstd::prelude::*;

verus! {

/// Two tests that agree on every element filter alike.
pub proof fn lemma_filter_agree<A>(s: Seq<A>, p: spec_fn(A) -> bool, q: spec_fn(A) -> bool)
    requires
        forall|x: A| #[trigger] p(x) == q(x),
    ensures
        s.filter(p) == s.filter(q),
    decreases s.len(),
{
    reveal(Seq::filter);
    if s.len() > 0 {
        lemma_filter_agree(s.drop_last(), p, q);
    }
}

/// What passes one of two tests that exclude each other is counted by adding up what
/// passes each.
pub proof fn lemma_filter_len_split<A>(
    s: Seq<A>,
    p: spec_fn(A) -> bool,
    q: spec_fn(A) -> bool,
    either: spec_fn(A) -> bool,
)
    requires
        forall|x: A| #[trigger] either(x) == (p(x) || q(x)),
        forall|x: A| !(#[trigger] p(x) && q(x)),
    ensures
        s.filter(either).len() == s.filter(p).len() + s.filter(q).len(),
    decreases s.len(),
{
    reveal(Seq::filter);
    if s.len() > 0 {
        lemma_filter_len_split(s.drop_last(), p, q, either);
    }
}

/// The test for the rows of one group.
pub open spec fn in_group<R, G>(member: spec_fn(G, R) -> bool, group: G) -> spec_fn(R) -> bool {
    |row: R| member(group, row)
}

/// The test for the rows of any group of a list.
pub open spec fn in_some_group<R, G>(member: spec_fn(G, R) -> bool, groups: Seq<G>) -> spec_fn(
    R,
) -> bool {
    |row: R| exists|j: int| 0 <= j < groups.len() && #[trigger] member(groups[j], row)
}

/// The number of rows of each group of a list, added up.
pub open spec fn group_sum<R, G>(rows: Seq<R>, groups: Seq<G>, member: spec_fn(G, R) -> bool) -> nat
    decreases groups.len(),
{
    if groups.len() == 0 {
        0
    } else {
        group_sum(rows, groups.drop_last(), member) + rows.filter(
            in_group(member, groups.last()),
        ).len()
    }
}

/// Where no row belongs to two groups of a list, the rows of the groups, added up group
/// by group, are the rows that belong to any of them.
pub proof fn lemma_group_sum<R, G>(rows: Seq<R>, groups: Seq<G>, member: spec_fn(G, R) -> bool)
    requires
        forall|i: int, j: int, row: R|
            0 <= i < j < groups.len() ==> !(#[trigger] member(groups[i], row) && #[trigger] member(
                groups[j],
                row,
            )),
    ensures
        group_sum(rows, groups, member) == rows.filter(in_some_group(member, groups)).len(),
    decreases groups.len(),
{
    if groups.len() == 0 {
        let none = in_some_group(member, groups);
        assert(rows.filter(none).len() == 0) by {
            lemma_filter_none(rows, none);
        }
    } else {
        let rest = groups.drop_last();
        let last = groups.last();
        assert forall|i: int, j: int, row: R| 0 <= i < j < rest.len() implies !(#[trigger] member(
            rest[i],
            row,
        ) && #[trigger] member(rest[j], row)) by {
            assert(rest[i] == groups[i] && rest[j] == groups[j]);
        }
        lemma_group_sum(rows, rest, member);
        let p = in_some_group(member, rest);
        let q = in_group(member, last);
        let either = in_some_group(member, groups);
        assert forall|x: R| #[trigger] either(x) == (p(x) || q(x)) by {
            if p(x) {
                let j = choose|j: int| 0 <= j < rest.len() && #[trigger] member(rest[j], x);
                assert(member(groups[j], x));
            }
            if q(x) {
                assert(member(groups[groups.len() - 1], x));
            }
            if either(x) {
                let j = choose|j: int| 0 <= j < groups.len() && #[trigger] member(groups[j], x);
                if j < rest.len() {
                    assert(member(rest[j], x));
                }
            }
        }
        assert forall|x: R| !(#[trigger] p(x) && q(x)) by {
            if p(x) && q(x) {
                let j = choose|j: int| 0 <= j < rest.len() && #[trigger] member(rest[j], x);
                assert(member(groups[j], x) && member(groups[groups.len() - 1], x));
            }
        }
        lemma_filter_len_split(rows, p, q, either);
    }
}

/// A test that nothing passes filters everything out.
pub proof fn lemma_filter_none<A>(s: Seq<A>, p: spec_fn(A) -> bool)
    requires
        forall|x: A| !#[trigger] p(x),
    ensures
        s.filter(p).len() == 0,
    decreases s.len(),
{
    reveal(Seq::filter);
    if s.len() > 0 {
        lemma_filter_none(s.drop_last(), p);
    }
}

/// Where no key occurs twice among the rows, the rows that pass a test are as many as
/// the keys of such rows.
pub proof fn lemma_filter_len_is_key_count<R, K>(
    rows: Seq<R>,
    key: spec_fn(R) -> K,
    p: spec_fn(R) -> bool,
    keys: Set<K>,
)
    requires
        rows.map_values(key).no_duplicates(),
        forall|k: K|
            keys.contains(k) <==> exists|i: int|
                0 <= i < rows.len() && #[trigger] key(rows[i]) == k && p(rows[i]),
    ensures
        keys.finite(),
        keys.len() == rows.filter(p).len(),
    decreases rows.len(),
{
    reveal(Seq::filter);
    if rows.len() == 0 {
        assert(keys =~= Set::empty());
    } else {
        let rest = rows.drop_last();
        let last = rows.last();
        let rest_keys = Set::new(
            |k: K| exists|i: int| 0 <= i < rest.len() && #[trigger] key(rest[i]) == k && p(rest[i]),
        );
        assert(rest.map_values(key) =~= rows.map_values(key).drop_last());
        lemma_filter_len_is_key_count(rest, key, p, rest_keys);
        assert(!rest_keys.contains(key(last))) by {
            if rest_keys.contains(key(last)) {
                let i = choose|i: int|
                    0 <= i < rest.len() && #[trigger] key(rest[i]) == key(last) && p(rest[i]);
                assert(rows.map_values(key)[i] == rows.map_values(key)[rows.len() - 1]);
            }
        }
        if p(last) {
            assert forall|k: K| keys.contains(k) <==> rest_keys.insert(key(last)).contains(k) by {
                if keys.contains(k) {
                    let i = choose|i: int|
                        0 <= i < rows.len() && #[trigger] key(rows[i]) == k && p(rows[i]);
                    if i < rest.len() {
                        assert(key(rest[i]) == k && p(rest[i]));
                    }
                }
                if rest_keys.contains(k) {
                    let i = choose|i: int|
                        0 <= i < rest.len() && #[trigger] key(rest[i]) == k && p(rest[i]);
                    assert(key(rows[i]) == k && p(rows[i]));
                }
                if k == key(last) {
                    assert(key(rows[rows.len() - 1]) == k && p(rows[rows.len() - 1]));
                }
            }
            assert(keys =~= rest_keys.insert(key(last)));
        } else {
            assert forall|k: K| keys.contains(k) <==> rest_keys.contains(k) by {
                if keys.contains(k) {
                    let i = choose|i: int|
                        0 <= i < rows.len() && #[trigger] key(rows[i]) == k && p(rows[i]);
                    assert(i < rest.len());
                    assert(key(rest[i]) == k && p(rest[i]));
                }
                if rest_keys.contains(k) {
                    let i = choose|i: int|
                        0 <= i < rest.len() && #[trigger] key(rest[i]) == k && p(rest[i]);
                    assert(key(rows[i]) == k && p(rows[i]));
                }
            }
            assert(keys =~= rest_keys);
        }
    }
}

/// What a filtered sequence holds: the elements of the sequence that pass the test.
pub proof fn lemma_filter_member<A>(s: Seq<A>, p: spec_fn(A) -> bool, x: A)
    ensures
        s.filter(p).contains(x) <==> s.contains(x) && p(x),
    decreases s.len(),
{
    reveal(Seq::filter);
    if s.len() > 0 {
        let rest = s.drop_last();
        let last = s.last();
        lemma_filter_member(rest, p, x);
        vstd::seq_lib::lemma_seq_contains_after_push(rest.filter(p), last, x);
        vstd::seq_lib::lemma_seq_contains_after_push(rest, last, x);
        assert(rest.push(last) == s);
    }
}

/// Filtering rows whose keys are all different leaves rows whose keys are all different.
pub proof fn lemma_filter_keeps_keys_distinct<R, K>(
    rows: Seq<R>,
    key: spec_fn(R) -> K,
    p: spec_fn(R) -> bool,
)
    requires
        rows.map_values(key).no_duplicates(),
    ensures
        rows.filter(p).map_values(key).no_duplicates(),
    decreases rows.len(),
{
    reveal(Seq::filter);
    if rows.len() > 0 {
        let rest = rows.drop_last();
        let last = rows.last();
        assert(rest.map_values(key) =~= rows.map_values(key).drop_last());
        lemma_filter_keeps_keys_distinct(rest, key, p);
        if p(last) {
            let kept = rest.filter(p);
            assert(kept.push(last).map_values(key) =~= kept.map_values(key).push(key(last)));
            assert forall|i: int| 0 <= i < kept.len() implies key(#[trigger] kept[i]) != key(
                last,
            ) by {
                lemma_filter_member(rest, p, kept[i]);
                assert(kept.contains(kept[i]));
                let j = choose|j: int| 0 <= j < rest.len() && rest[j] == kept[i];
                assert(rows.map_values(key)[j] != rows.map_values(key)[rows.len() - 1]);
            }
            let keys = kept.map_values(key).push(key(last));
            assert forall|i: int, j: int| 0 <= i < j < keys.len() implies #[trigger] keys[i]
                != #[trigger] keys[j] by {
                if j < kept.len() {
                    assert(kept.map_values(key)[i] != kept.map_values(key)[j]);
                } else {
                    assert(key(kept[i]) != key(last));
                }
            }
        }
    }
}

} // verus!
