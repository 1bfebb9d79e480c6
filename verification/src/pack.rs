//! Packaging model artifacts into a `.xyb` bundle: which files go into the
//! bundle, which names are reported as duplicates, and what the bundle file
//! is called.
//!
//! A bundle stores files by their file name alone, so of several files with
//! the same name only the first is added; the others are reported. Files
//! whose name is empty (or not valid UTF-8) are passed over.
use vstd::prelude::*;
use crate::sorted::{
    contains_text_of, insert_ascending, lemma_ascending_determined_by_members, strictly_ascending,
    texts,
};

verus! {

/// The file at `i` is the first one with its name, and the name is not empty.
pub open spec fn first_with_name(names: Seq<Seq<char>>, i: int) -> bool {
    &&& 0 <= i < names.len()
    &&& names[i].len() > 0
    &&& forall|j: int| 0 <= j < i ==> names[j] != names[i]
}

/// `name` is not empty and at least two files carry it.
pub open spec fn repeated_name(names: Seq<Seq<char>>, name: Seq<char>) -> bool {
    &&& name.len() > 0
    &&& exists|i: int, j: int| 0 <= i < j < names.len() && names[i] == name && names[j] == name
}

/// The positions of the files that are added, in the order they come.
pub open spec fn files_added(names: Seq<Seq<char>>) -> Seq<int>
    decreases names.len(),
{
    if names.len() == 0 {
        seq![]
    } else if first_with_name(names, names.len() - 1) {
        files_added(names.drop_last()).push(names.len() - 1)
    } else {
        files_added(names.drop_last())
    }
}

/// Which files go into a bundle, and the names skipped as duplicates.
pub struct BundlePlan {
    /// Positions, among the files offered, of the files to add, ascending.
    pub files_to_add: Vec<usize>,
    /// The names carried by more than one file, ascending, each once.
    pub duplicates: Vec<String>,
}

proof fn lemma_first_with_name_prefix(names: Seq<Seq<char>>, n: int, i: int)
    requires
        0 <= i < n <= names.len(),
    ensures
        first_with_name(names.take(n), i) == first_with_name(names, i),
{
    assert forall|j: int| 0 <= j < i implies names.take(n)[j] == names[j] by {}
    assert(names.take(n)[i] == names[i]);
}

/// Chooses the files to add to a bundle from the names of the files offered,
/// in their order: a file is added when its name is not empty and no earlier
/// file has it. The names that more than one file carries are returned
/// sorted as `str` sorts, without repeats.
pub fn plan_bundle_files(names: &Vec<String>) -> (plan: BundlePlan)
    ensures
        plan.files_to_add@.map_values(|k: usize| k as int) == files_added(texts(names@)),
        strictly_ascending(texts(plan.duplicates@)),
        forall|t: Seq<char>|
            texts(plan.duplicates@).contains(t) <==> repeated_name(texts(names@), t),
{
    let ghost all = texts(names@);
    let mut seen: Vec<String> = Vec::new();
    let mut files_to_add: Vec<usize> = Vec::new();
    let mut duplicates: Vec<String> = Vec::new();
    let mut i: usize = 0;
    assert(all.take(0) =~= Seq::<Seq<char>>::empty());
    while i < names.len()
        invariant
            i <= names.len(),
            all == texts(names@),
            files_to_add@.map_values(|k: usize| k as int) == files_added(all.take(i as int)),
            forall|t: Seq<char>|
                #![trigger texts(seen@).contains(t)]
                #![trigger all.take(i as int).contains(t)]
                texts(seen@).contains(t) <==> (t.len() > 0 && all.take(i as int).contains(t)),
            strictly_ascending(texts(duplicates@)),
            forall|t: Seq<char>|
                texts(duplicates@).contains(t) <==> repeated_name(all.take(i as int), t),
        decreases names.len() - i,
    {
        let ghost pre = all.take(i as int);
        let ghost post = all.take(i + 1);
        let ghost name = all[i as int];
        proof {
            assert(post =~= pre.push(name));
            assert(post.drop_last() =~= pre);
            assert(names@[i as int]@ == name);
        }
        let file_name = &names[i];
        if file_name.as_str().is_empty() {
            proof {
                assert(!first_with_name(post, i as int));
                assert forall|t: Seq<char>| repeated_name(post, t) implies repeated_name(pre, t) by {
                    let (a, b) = choose|a: int, b: int|
                        0 <= a < b < post.len() && post[a] == t && post[b] == t;
                    assert(b < i);
                    assert(pre[a] == t && pre[b] == t);
                }
                assert forall|t: Seq<char>| repeated_name(pre, t) implies repeated_name(post, t) by {
                    let (a, b) = choose|a: int, b: int|
                        0 <= a < b < pre.len() && pre[a] == t && pre[b] == t;
                    assert(post[a] == t && post[b] == t);
                }
                assert forall|t: Seq<char>|
                    (t.len() > 0 && post.contains(t)) <==> (t.len() > 0 && pre.contains(t)) by {
                    if t.len() > 0 && post.contains(t) {
                        let k = choose|k: int| 0 <= k < post.len() && post[k] == t;
                        assert(pre[k] == t);
                    }
                    if pre.contains(t) {
                        let k = choose|k: int| 0 <= k < pre.len() && pre[k] == t;
                        assert(post[k] == t);
                    }
                }
                assert forall|t: Seq<char>|
                    #![trigger texts(seen@).contains(t)]
                    #![trigger post.contains(t)]
                    texts(seen@).contains(t) <==> (t.len() > 0 && post.contains(t)) by {
                    assert(texts(seen@).contains(t) <==> (t.len() > 0 && pre.contains(t)));
                }
            }
        } else if contains_text_of(&seen, file_name) {
            proof {
                assert(pre.contains(name));
                let k = choose|k: int| 0 <= k < pre.len() && pre[k] == name;
                assert(post[k] == name && post[i as int] == name);
                assert(repeated_name(post, name));
                assert(!first_with_name(post, i as int));
                assert forall|t: Seq<char>| t != name && repeated_name(post, t) implies repeated_name(
                    pre,
                    t,
                ) by {
                    let (a, b) = choose|a: int, b: int|
                        0 <= a < b < post.len() && post[a] == t && post[b] == t;
                    assert(pre[a] == t && pre[b] == t);
                }
                assert forall|t: Seq<char>| repeated_name(pre, t) implies repeated_name(post, t) by {
                    let (a, b) = choose|a: int, b: int|
                        0 <= a < b < pre.len() && pre[a] == t && pre[b] == t;
                    assert(post[a] == t && post[b] == t);
                }
                assert forall|t: Seq<char>|
                    (t.len() > 0 && post.contains(t)) <==> (t.len() > 0 && pre.contains(t)) by {
                    if t.len() > 0 && post.contains(t) {
                        let k = choose|k: int| 0 <= k < post.len() && post[k] == t;
                        if k == i {
                        } else {
                            assert(pre[k] == t);
                        }
                    }
                    if pre.contains(t) {
                        let k = choose|k: int| 0 <= k < pre.len() && pre[k] == t;
                        assert(post[k] == t);
                    }
                }
                assert forall|t: Seq<char>|
                    #![trigger texts(seen@).contains(t)]
                    #![trigger post.contains(t)]
                    texts(seen@).contains(t) <==> (t.len() > 0 && post.contains(t)) by {
                    assert(texts(seen@).contains(t) <==> (t.len() > 0 && pre.contains(t)));
                }
            }
            insert_ascending(&mut duplicates, file_name.clone());
        } else {
            proof {
                assert(!pre.contains(name));
                assert forall|j: int| 0 <= j < i implies post[j] != post[i as int] by {
                    assert(pre[j] == post[j]);
                }
                assert(first_with_name(post, i as int));
                assert forall|t: Seq<char>| repeated_name(post, t) implies repeated_name(pre, t) by {
                    let (a, b) = choose|a: int, b: int|
                        0 <= a < b < post.len() && post[a] == t && post[b] == t;
                    if b == i {
                        assert(pre[a] == name);
                    }
                    assert(pre[a] == t && pre[b] == t);
                }
                assert forall|t: Seq<char>| repeated_name(pre, t) implies repeated_name(post, t) by {
                    let (a, b) = choose|a: int, b: int|
                        0 <= a < b < pre.len() && pre[a] == t && pre[b] == t;
                    assert(post[a] == t && post[b] == t);
                }
            }
            let ghost seen_before = texts(seen@);
            seen.push(file_name.clone());
            files_to_add.push(i);
            proof {
                assert(texts(seen@) =~= seen_before.push(name));
                assert forall|t: Seq<char>|
                    #![trigger texts(seen@).contains(t)]
                    #![trigger post.contains(t)]
                    texts(seen@).contains(t) <==> (t.len() > 0 && post.contains(t)) by {
                    if texts(seen@).contains(t) {
                        let k = choose|k: int| 0 <= k < texts(seen@).len() && texts(seen@)[k] == t;
                        if k < seen_before.len() {
                            assert(seen_before[k] == t);
                            assert(seen_before.contains(t));
                            assert(pre.contains(t));
                            let m = choose|m: int| 0 <= m < pre.len() && pre[m] == t;
                            assert(post[m] == t);
                        } else {
                            assert(post[i as int] == t);
                        }
                    }
                    if t.len() > 0 && post.contains(t) {
                        let k = choose|k: int| 0 <= k < post.len() && post[k] == t;
                        if k < i {
                            assert(pre[k] == t);
                            assert(seen_before.contains(t));
                            let m = choose|m: int| 0 <= m < seen_before.len() && seen_before[m] == t;
                            assert(texts(seen@)[m] == t);
                        } else {
                            assert(texts(seen@)[seen_before.len() as int] == t);
                        }
                    }
                }
            }
        }
        assert(post == all.take(i + 1));
        proof {
            assert(files_added(post) == if first_with_name(post, i as int) {
                files_added(pre).push(i as int)
            } else {
                files_added(pre)
            });
        }
        i = i + 1;
    }
    assert(all.take(names.len() as int) =~= all);
    BundlePlan { files_to_add, duplicates }
}

/// The file name of a bundle: `<name>-<version>-<target>.xyb`.
pub fn bundle_file_name(name: &str, version: &str, target: &str) -> (file_name: String)
    ensures
        file_name@ == name@ + "-"@ + version@ + "-"@ + target@ + ".xyb"@,
{
    let mut file_name = String::from_str(name);
    file_name.append("-");
    file_name.append(version);
    file_name.append("-");
    file_name.append(target);
    file_name.append(".xyb");
    file_name
}

/// Every file added is a first occurrence of its name, and the first
/// occurrences are added in their order.
proof fn lemma_files_added_members(names: Seq<Seq<char>>)
    ensures
        forall|k: int|
            0 <= k < files_added(names).len() ==> first_with_name(
                names,
                #[trigger] files_added(names)[k],
            ),
        forall|a: int, b: int|
            0 <= a < b < files_added(names).len() ==> #[trigger] files_added(names)[a]
                < #[trigger] files_added(names)[b],
        forall|i: int| first_with_name(names, i) ==> #[trigger] files_added(names).contains(i),
    decreases names.len(),
{
    if names.len() > 0 {
        let n = names.len() - 1;
        let prefix = names.drop_last();
        lemma_files_added_members(prefix);
        let fp = files_added(prefix);
        assert forall|i: int| 0 <= i < n implies first_with_name(prefix, i) == first_with_name(
            names,
            i,
        ) by {
            assert(prefix =~= names.take(n));
            lemma_first_with_name_prefix(names, n, i);
        }
        assert forall|k: int| 0 <= k < fp.len() implies fp[k] < n by {
            assert(first_with_name(prefix, fp[k]));
        }
        if first_with_name(names, n) {
            assert(files_added(names) == fp.push(n));
            assert forall|i: int| first_with_name(names, i) implies #[trigger] files_added(
                names,
            ).contains(i) by {
                if i < n {
                    assert(first_with_name(prefix, i));
                    assert(fp.contains(i));
                    let k = choose|k: int| 0 <= k < fp.len() && fp[k] == i;
                    assert(files_added(names)[k] == i);
                } else {
                    assert(files_added(names)[fp.len() as int] == i);
                }
            }
        } else {
            assert forall|i: int| first_with_name(names, i) implies #[trigger] files_added(
                names,
            ).contains(i) by {
                assert(i < n);
                assert(first_with_name(prefix, i));
            }
        }
    }
}

proof fn lemma_first_occurrence_exists(names: Seq<Seq<char>>, i: int)
    requires
        0 <= i < names.len(),
        names[i].len() > 0,
    ensures
        exists|f: int| first_with_name(names, f) && names[f] == names[i],
    decreases i,
{
    if first_with_name(names, i) {
    } else {
        let j = choose|j: int| 0 <= j < i && names[j] == names[i];
        lemma_first_occurrence_exists(names, j);
    }
}

/// Each name gets into a bundle once: the files added carry distinct names,
/// none of them empty, they come in the order offered, and every non-empty
/// name offered is carried by one of them.
pub proof fn law_each_name_added_once(names: Seq<Seq<char>>)
    ensures
        forall|k: int|
            0 <= k < files_added(names).len() ==> 0 <= #[trigger] files_added(names)[k]
                < names.len() && names[files_added(names)[k]].len() > 0,
        forall|a: int, b: int|
            0 <= a < b < files_added(names).len() ==> #[trigger] files_added(names)[a]
                < #[trigger] files_added(names)[b] && names[files_added(names)[a]]
                != names[files_added(names)[b]],
        forall|i: int|
            0 <= i < names.len() && names[i].len() > 0 ==> exists|k: int|
                0 <= k < files_added(names).len() && names[#[trigger] files_added(names)[k]]
                    == names[i],
{
    lemma_files_added_members(names);
    let fa = files_added(names);
    assert forall|k: int| 0 <= k < fa.len() implies 0 <= #[trigger] fa[k] < names.len()
        && names[fa[k]].len() > 0 by {
        assert(first_with_name(names, fa[k]));
    }
    assert forall|a: int, b: int| 0 <= a < b < fa.len() implies #[trigger] fa[a] < #[trigger] fa[b]
        && names[fa[a]] != names[fa[b]] by {
        assert(first_with_name(names, fa[b]));
    }
    assert forall|i: int| 0 <= i < names.len() && names[i].len() > 0 implies exists|k: int|
        0 <= k < fa.len() && names[#[trigger] fa[k]] == names[i] by {
        lemma_first_occurrence_exists(names, i);
        let f = choose|f: int| first_with_name(names, f) && names[f] == names[i];
        assert(fa.contains(f));
        let k = choose|k: int| 0 <= k < fa.len() && fa[k] == f;
        assert(names[fa[k]] == names[i]);
    }
}

/// A name is reported as a duplicate exactly when a file carrying it is left
/// out of the bundle.
pub proof fn law_duplicates_are_the_names_left_out(names: Seq<Seq<char>>, name: Seq<char>)
    ensures
        repeated_name(names, name) <==> exists|i: int|
            0 <= i < names.len() && #[trigger] names[i] == name && name.len() > 0
                && !first_with_name(names, i),
{
    if repeated_name(names, name) {
        let (a, b) = choose|a: int, b: int|
            0 <= a < b < names.len() && names[a] == name && names[b] == name;
        assert(!first_with_name(names, b));
    }
    if exists|i: int|
        0 <= i < names.len() && #[trigger] names[i] == name && name.len() > 0 && !first_with_name(
            names,
            i,
        ) {
        let i = choose|i: int|
            0 <= i < names.len() && #[trigger] names[i] == name && name.len() > 0
                && !first_with_name(names, i);
        let j = choose|j: int| 0 <= j < i && names[j] == names[i];
        assert(names[j] == name);
    }
}

/// The non-empty names offered.
pub open spec fn offered_names(names: Seq<Seq<char>>) -> Set<Seq<char>> {
    Set::new(|t: Seq<char>| t.len() > 0 && names.contains(t))
}

/// As many files are added as there are distinct non-empty names.
proof fn lemma_added_count(names: Seq<Seq<char>>)
    ensures
        files_added(names).len() == offered_names(names).len(),
{
    law_each_name_added_once(names);
    let fa = files_added(names);
    let added = fa.map_values(|k: int| names[k]);
    assert forall|a: int, b: int| 0 <= a < added.len() && 0 <= b < added.len() && a != b implies added[a]
        != added[b] by {
        if a < b {
            assert(fa[a] < fa[b]);
        } else {
            assert(fa[b] < fa[a]);
        }
    }
    assert(added.no_duplicates());
    added.unique_seq_to_set();
    assert forall|t: Seq<char>| added.to_set().contains(t) <==> offered_names(names).contains(t) by {
        if added.to_set().contains(t) {
            assert(added.contains(t));
            let k = choose|k: int| 0 <= k < added.len() && added[k] == t;
            assert(0 <= fa[k] < names.len());
            assert(names[fa[k]] == t);
            assert(names.contains(t));
        }
        if offered_names(names).contains(t) {
            let i = choose|i: int| 0 <= i < names.len() && names[i] == t;
            let k = choose|k: int| 0 <= k < fa.len() && names[#[trigger] fa[k]] == names[i];
            assert(added[k] == t);
            assert(added.contains(t));
        }
    }
    assert(added.to_set() =~= offered_names(names));
}

/// A name is repeated exactly when it is not empty and occurs at least twice.
proof fn lemma_repeated_count(names: Seq<Seq<char>>, t: Seq<char>)
    ensures
        repeated_name(names, t) <==> (t.len() > 0 && names.to_multiset().count(t) >= 2),
    decreases names.len(),
{
    broadcast use vstd::seq_lib::group_to_multiset_ensures;
    broadcast use vstd::multiset::group_multiset_properties;

    if names.len() == 0 {
        assert(names.to_multiset().count(t) == 0) by {
            assert(!names.contains(t));
        }
    } else {
        let pre = names.drop_last();
        let x = names.last();
        assert(names =~= pre.push(x));
        lemma_repeated_count(pre, t);
        assert(names.to_multiset() =~= pre.to_multiset().insert(x));
        if repeated_name(names, t) {
            let (a, b) = choose|a: int, b: int|
                0 <= a < b < names.len() && names[a] == t && names[b] == t;
            if b < pre.len() {
                assert(pre[a] == t && pre[b] == t);
                assert(repeated_name(pre, t));
            } else {
                assert(pre[a] == t);
                assert(pre.contains(t));
            }
        }
        if t.len() > 0 && names.to_multiset().count(t) >= 2 {
            if x == t {
                assert(pre.to_multiset().count(t) >= 1);
                assert(pre.contains(t));
                let a = choose|a: int| 0 <= a < pre.len() && pre[a] == t;
                assert(names[a] == t && names[names.len() - 1] == t);
            } else {
                assert(repeated_name(pre, t));
                let (a, b) = choose|a: int, b: int|
                    0 <= a < b < pre.len() && pre[a] == t && pre[b] == t;
                assert(names[a] == t && names[b] == t);
            }
        }
    }
}

/// What a bundle gets depends only on the names offered, counted with their
/// repeats, and not on their order: two offers with the same names add as
/// many files, and report the same duplicates in the same order.
pub proof fn law_plan_depends_only_on_name_multiset(
    a: Seq<Seq<char>>,
    b: Seq<Seq<char>>,
    duplicates_a: Seq<Seq<char>>,
    duplicates_b: Seq<Seq<char>>,
)
    requires
        a.to_multiset() == b.to_multiset(),
        strictly_ascending(duplicates_a),
        strictly_ascending(duplicates_b),
        forall|t: Seq<char>| duplicates_a.contains(t) <==> repeated_name(a, t),
        forall|t: Seq<char>| duplicates_b.contains(t) <==> repeated_name(b, t),
    ensures
        files_added(a).len() == files_added(b).len(),
        forall|t: Seq<char>| repeated_name(a, t) <==> repeated_name(b, t),
        duplicates_a == duplicates_b,
{
    broadcast use vstd::seq_lib::group_to_multiset_ensures;

    lemma_added_count(a);
    lemma_added_count(b);
    assert forall|t: Seq<char>| offered_names(a).contains(t) <==> offered_names(b).contains(t) by {
        assert(a.contains(t) <==> a.to_multiset().count(t) > 0);
        assert(b.contains(t) <==> b.to_multiset().count(t) > 0);
    }
    assert(offered_names(a) =~= offered_names(b));
    assert forall|t: Seq<char>| repeated_name(a, t) <==> repeated_name(b, t) by {
        lemma_repeated_count(a, t);
        lemma_repeated_count(b, t);
    }
    lemma_ascending_determined_by_members(duplicates_a, duplicates_b);
}

} // verus!
