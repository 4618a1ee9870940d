//! Properties of the archiver that relate several steps or calls.
use vstd::prelude::*;
use crate::archive::{archive_names, decision_of, record_of, EntryKind, Visit};
use crate::ignore::{any_matches, is_ignored};
use crate::paths::{components, joined, lead, named, relative_to, split_slash};

verus! {

/// The records that a walk yields when nothing is excluded: one per file,
/// in walk order, named by its path under the root name.
pub open spec fn file_records(root: Seq<char>, name: Seq<char>, visits: Seq<Visit>) -> Seq<
    Seq<char>,
>
    decreases visits.len(),
{
    if visits.len() == 0 {
        Seq::empty()
    } else {
        let prev = file_records(root, name, visits.drop_last());
        match visits.last() {
            Visit::Entry { path, kind: EntryKind::File } => match relative_to(root, path) {
                Some(rel) => prev.push(joined(name, rel)),
                None => prev,
            },
            _ => prev,
        }
    }
}

/// Every node of the walk lies under the root.
pub open spec fn all_under_root(root: Seq<char>, visits: Seq<Visit>) -> bool {
    forall|i: int|
        0 <= i < visits.len() ==> (#[trigger] visits[i] matches Visit::Entry { path, .. }
            ==> relative_to(root, path) is Some)
}

/// No node is walked twice.
pub open spec fn distinct_paths(visits: Seq<Visit>) -> bool {
    forall|i: int, j: int|
        0 <= i < visits.len() && 0 <= j < visits.len() && i != j ==> match (
            #[trigger] visits[i],
            #[trigger] visits[j],
        ) {
            (Visit::Entry { path: p, .. }, Visit::Entry { path: q, .. }) => p != q,
            _ => true,
        }
}

/// A record is in the archive exactly when some step of the walk yields it.
pub proof fn lemma_record_member(
    root: Seq<char>,
    name: Seq<char>,
    rules: Seq<Seq<char>>,
    visits: Seq<Visit>,
    t: Seq<char>,
)
    ensures
        archive_names(root, name, rules, visits).contains(t) <==> exists|j: int|
            0 <= j < visits.len() && record_of(root, name, rules, #[trigger] visits[j]) == Some(
                t,
            ),
    decreases visits.len(),
{
    if visits.len() > 0 {
        let init = visits.drop_last();
        lemma_record_member(root, name, rules, init, t);
        let prev = archive_names(root, name, rules, init);
        if archive_names(root, name, rules, visits).contains(t) {
            let k = choose|k: int|
                0 <= k < archive_names(root, name, rules, visits).len() && archive_names(
                    root,
                    name,
                    rules,
                    visits,
                )[k] == t;
            if k < prev.len() {
                assert(prev[k] == t);
                let j = choose|j: int|
                    0 <= j < init.len() && record_of(root, name, rules, #[trigger] init[j])
                        == Some(t);
                assert(visits[j] == init[j]);
            } else {
                assert(record_of(root, name, rules, visits[visits.len() - 1]) == Some(t));
            }
        }
        if exists|j: int|
            0 <= j < visits.len() && record_of(root, name, rules, #[trigger] visits[j]) == Some(
                t,
            ) {
            let j = choose|j: int|
                0 <= j < visits.len() && record_of(root, name, rules, #[trigger] visits[j])
                    == Some(t);
            if j < init.len() {
                assert(init[j] == visits[j]);
                assert(prev.contains(t));
                let k = choose|k: int| 0 <= k < prev.len() && prev[k] == t;
                assert(archive_names(root, name, rules, visits)[k] == t);
            } else {
                assert(archive_names(root, name, rules, visits) == prev.push(t));
                assert(archive_names(root, name, rules, visits)[prev.len() as int] == t);
            }
        }
    }
}

proof fn lemma_joined_injective(name: Seq<char>, a: Seq<char>, b: Seq<char>)
    requires
        joined(name, a) == joined(name, b),
    ensures
        a == b,
{
    if a.len() > 0 && b.len() > 0 {
        assert(a =~= joined(name, a).skip(name.len() as int + 1));
        assert(b =~= joined(name, b).skip(name.len() as int + 1));
    } else if a.len() > 0 || b.len() > 0 {
        assert(joined(name, a).len() != joined(name, b).len());
    }
}

proof fn lemma_relative_injective(root: Seq<char>, p: Seq<char>, q: Seq<char>)
    requires
        relative_to(root, p) is Some,
        relative_to(root, p) == relative_to(root, q),
    ensures
        p == q,
{
    let n = root.len() as int;
    let r = relative_to(root, p)->0;
    if p != root && q != root {
        if n > 0 && root.last() == '/' {
            assert(p =~= p.take(n) + p.skip(n));
            assert(q =~= q.take(n) + q.skip(n));
        } else {
            assert(p =~= p.take(n) + seq!['/'] + p.skip(n + 1));
            assert(q =~= q.take(n) + seq!['/'] + q.skip(n + 1));
        }
    } else if p != root || q != root {
        assert(r.len() == 0);
        if p != root {
            assert(p.skip(n).len() > 0);
        }
        if q != root {
            assert(q.skip(n).len() > 0);
        }
    }
}

proof fn lemma_empty_rules_ignore_nothing(rules: Seq<Seq<char>>, p: Seq<char>)
    requires
        rules.len() == 0,
    ensures
        !is_ignored(rules, p),
{
}

/// With no ignore patterns, the archive holds exactly one record per file
/// of the walk, named `<root name>/<path below the root>`, in walk order.
pub proof fn law_no_patterns_keep_every_file(
    root: Seq<char>,
    name: Seq<char>,
    rules: Seq<Seq<char>>,
    visits: Seq<Visit>,
)
    requires
        rules.len() == 0,
        all_under_root(root, visits),
    ensures
        archive_names(root, name, rules, visits) == file_records(root, name, visits),
    decreases visits.len(),
{
    if visits.len() > 0 {
        let init = visits.drop_last();
        assert forall|i: int| 0 <= i < init.len() implies (#[trigger] init[i] matches Visit::Entry {
            path,
            ..
        } ==> relative_to(root, path) is Some) by {
            assert(init[i] == visits[i]);
        }
        law_no_patterns_keep_every_file(root, name, rules, init);
        let last = visits.last();
        assert(last == visits[visits.len() - 1]);
        if let Visit::Entry { path, kind } = last {
            let rel = relative_to(root, path)->0;
            lemma_empty_rules_ignore_nothing(rules, path);
            lemma_empty_rules_ignore_nothing(rules, joined(name, rel));
        }
    }
}

/// A file that the patterns exclude, by its path or by one of its
/// components, has no record in the archive.
pub proof fn law_ignored_file_absent(
    root: Seq<char>,
    name: Seq<char>,
    rules: Seq<Seq<char>>,
    visits: Seq<Visit>,
    i: int,
)
    requires
        distinct_paths(visits),
        0 <= i < visits.len(),
        visits[i] matches Visit::Entry { path, .. } && is_ignored(rules, path) && relative_to(
            root,
            path,
        ) is Some,
    ensures
        visits[i] matches Visit::Entry { path, .. } && !archive_names(
            root,
            name,
            rules,
            visits,
        ).contains(joined(name, relative_to(root, path)->0)),
{
    if let Visit::Entry { path, .. } = visits[i] {
        let t = joined(name, relative_to(root, path)->0);
        lemma_record_member(root, name, rules, visits, t);
        if archive_names(root, name, rules, visits).contains(t) {
            let j = choose|j: int|
                0 <= j < visits.len() && record_of(root, name, rules, #[trigger] visits[j])
                    == Some(t);
            if let Visit::Entry { path: q, .. } = visits[j] {
                let rq = relative_to(root, q)->0;
                lemma_joined_injective(name, rq, relative_to(root, path)->0);
                lemma_relative_injective(root, q, path);
                assert(i != j);
                assert(false);
            }
        }
    }
}

proof fn lemma_split_concat(a: Seq<char>, b: Seq<char>)
    ensures
        split_slash(a + seq!['/'] + b) == split_slash(a) + split_slash(b),
    decreases b.len(),
{
    let s = a + seq!['/'] + b;
    crate::paths::lemma_split_nonempty(a);
    if b.len() == 0 {
        assert(s.drop_last() =~= a);
        assert(split_slash(a) + split_slash(b) =~= split_slash(a).push(Seq::empty()));
    } else {
        let b0 = b.drop_last();
        lemma_split_concat(a, b0);
        crate::paths::lemma_split_nonempty(b0);
        assert(s.drop_last() =~= a + seq!['/'] + b0);
        let x = split_slash(a);
        let y = split_slash(b0);
        if b.last() == '/' {
            assert((x + y).push(Seq::empty()) =~= x + y.push(Seq::empty()));
        } else {
            let c = b.last();
            assert((x + y).update((x + y).len() - 1, (x + y).last().push(c)) =~= x + y.update(
                y.len() - 1,
                y.last().push(c),
            ));
        }
    }
}

proof fn lemma_named_concat(x: Seq<Seq<char>>, y: Seq<Seq<char>>)
    ensures
        named(x + y) == named(x) + named(y),
    decreases y.len(),
{
    if y.len() == 0 {
        assert(x + y =~= x);
        assert(named(x) + named(y) =~= named(x));
    } else {
        lemma_named_concat(x, y.drop_last());
        assert((x + y).drop_last() =~= x + y.drop_last());
        assert((named(x) + named(y.drop_last())).push(y.last()) =~= named(x) + named(
            y.drop_last(),
        ).push(y.last()));
    }
}

/// The components of a directory come first among those of every path
/// below it.
pub proof fn lemma_components_extend(dir: Seq<char>, rest: Seq<char>)
    requires
        dir.len() > 0,
    ensures
        components(dir + seq!['/'] + rest) == components(dir) + named(split_slash(rest)),
{
    let p = dir + seq!['/'] + rest;
    lemma_split_concat(dir, rest);
    crate::paths::lemma_split_nonempty(dir);
    lemma_named_concat(split_slash(dir), split_slash(rest));
    assert(p[0] == dir[0]);
    assert(split_slash(p)[0] == split_slash(dir)[0]);
    assert(lead(p) == lead(dir));
    assert(components(p) =~= components(dir) + named(split_slash(rest)));
}

/// A directory excluded through one of its components excludes everything
/// below it: the path of each descendant has that component too, so no
/// descendant yields a record, though the walk still visits it.
pub proof fn law_ignored_directory_covers_descendants(
    root: Seq<char>,
    name: Seq<char>,
    rules: Seq<Seq<char>>,
    dir: Seq<char>,
    rest: Seq<char>,
    kind: EntryKind,
)
    requires
        dir.len() > 0,
        exists|j: int|
            0 <= j < components(dir).len() && any_matches(rules, #[trigger] components(dir)[j]),
    ensures
        is_ignored(rules, dir + seq!['/'] + rest),
        record_of(root, name, rules, Visit::Entry { path: dir + seq!['/'] + rest, kind }) is None,
{
    let p = dir + seq!['/'] + rest;
    lemma_components_extend(dir, rest);
    let j = choose|j: int|
        0 <= j < components(dir).len() && any_matches(rules, #[trigger] components(dir)[j]);
    assert(components(p)[j] == components(dir)[j]);
    assert(is_ignored(rules, p));
    assert(decision_of(root, name, rules, Visit::Entry { path: p, kind }) is Ignore
        || decision_of(root, name, rules, Visit::Entry { path: p, kind }) is SkipOutsideRoot);
}

/// Two walks of an unchanged tree visit the same steps, perhaps in another
/// order; their archives hold the same set of record names.
pub proof fn law_same_walk_same_names(
    root: Seq<char>,
    name: Seq<char>,
    rules: Seq<Seq<char>>,
    first: Seq<Visit>,
    second: Seq<Visit>,
)
    requires
        first.to_set() == second.to_set(),
    ensures
        archive_names(root, name, rules, first).to_set() == archive_names(
            root,
            name,
            rules,
            second,
        ).to_set(),
{
    assert forall|t: Seq<char>|
        archive_names(root, name, rules, first).to_set().contains(t) == archive_names(
            root,
            name,
            rules,
            second,
        ).to_set().contains(t) by {
        lemma_record_member(root, name, rules, first, t);
        lemma_record_member(root, name, rules, second, t);
        if exists|j: int|
            0 <= j < first.len() && record_of(root, name, rules, #[trigger] first[j]) == Some(t) {
            let j = choose|j: int|
                0 <= j < first.len() && record_of(root, name, rules, #[trigger] first[j])
                    == Some(t);
            assert(first.to_set().contains(first[j]));
            assert(second.to_set().contains(first[j]));
            let k = choose|k: int| 0 <= k < second.len() && second[k] == first[j];
            assert(record_of(root, name, rules, second[k]) == Some(t));
        }
        if exists|j: int|
            0 <= j < second.len() && record_of(root, name, rules, #[trigger] second[j]) == Some(
                t,
            ) {
            let j = choose|j: int|
                0 <= j < second.len() && record_of(root, name, rules, #[trigger] second[j])
                    == Some(t);
            assert(second.to_set().contains(second[j]));
            assert(first.to_set().contains(second[j]));
            let k = choose|k: int| 0 <= k < first.len() && first[k] == second[j];
            assert(record_of(root, name, rules, first[k]) == Some(t));
        }
    }
    assert(archive_names(root, name, rules, first).to_set() =~= archive_names(
        root,
        name,
        rules,
        second,
    ).to_set());
}

/// A walk that meets no file yields no record: directories, empty or not,
/// are never archived.
pub proof fn law_no_files_no_records(
    root: Seq<char>,
    name: Seq<char>,
    rules: Seq<Seq<char>>,
    visits: Seq<Visit>,
)
    requires
        forall|i: int|
            0 <= i < visits.len() ==> !(#[trigger] visits[i] matches Visit::Entry {
                kind: EntryKind::File,
                ..
            }),
    ensures
        archive_names(root, name, rules, visits).len() == 0,
    decreases visits.len(),
{
    if visits.len() > 0 {
        let init = visits.drop_last();
        assert forall|i: int| 0 <= i < init.len() implies !(#[trigger] init[i] matches Visit::Entry {
            kind: EntryKind::File,
            ..
        }) by {
            assert(init[i] == visits[i]);
        }
        law_no_files_no_records(root, name, rules, init);
        assert(visits.last() == visits[visits.len() - 1]);
    }
}

/// Every record lies under the root name: it is the root name itself or
/// begins with it and a separator.
pub proof fn law_records_under_root_name(
    root: Seq<char>,
    name: Seq<char>,
    rules: Seq<Seq<char>>,
    visits: Seq<Visit>,
    k: int,
)
    requires
        0 <= k < archive_names(root, name, rules, visits).len(),
    ensures
        ({
            let t = archive_names(root, name, rules, visits)[k];
            t == name || (t.len() > name.len() + 1 && t.take(name.len() as int) == name
                && t[name.len() as int] == '/')
        }),
{
    let t = archive_names(root, name, rules, visits)[k];
    lemma_record_member(root, name, rules, visits, t);
    assert(archive_names(root, name, rules, visits).contains(t));
    let j = choose|j: int|
        0 <= j < visits.len() && record_of(root, name, rules, #[trigger] visits[j]) == Some(t);
    if let Visit::Entry { path, .. } = visits[j] {
        let rel = relative_to(root, path)->0;
        if rel.len() > 0 {
            assert(t.take(name.len() as int) =~= name);
        }
    }
}

} // verus!
