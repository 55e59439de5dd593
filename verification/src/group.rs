//! Grouping matched locators by the file they point into, and the rules
//! that decide which files a replacement run leaves alone.

use vstd::prelude::*;
use crate::model::PEMLocator;

verus! {

/// The locators that point into one file, in the order they were found.
#[derive(Clone, Debug)]
pub struct FileGroup {
    pub path: String,
    pub locators: Vec<PEMLocator>,
}

/// The test whether a locator points into the file at `path`.
pub open spec fn has_path(path: Seq<char>) -> spec_fn(PEMLocator) -> bool {
    |l: PEMLocator| l.path@ == path
}

/// The locators of `locs` whose path is `path`, in their order.
pub open spec fn with_path(locs: Seq<PEMLocator>, path: Seq<char>) -> Seq<PEMLocator> {
    locs.filter(has_path(path))
}

/// Whether some group is the group of `path`.
pub open spec fn has_group(groups: Seq<FileGroup>, path: Seq<char>) -> bool {
    exists|g: int| 0 <= g < groups.len() && #[trigger] groups[g].path@ == path
}

/// `groups` partitions `pems` by path: every group is non-empty and holds,
/// in order, exactly the locators of its path; no two groups share a path;
/// and the path of every locator has a group.
pub open spec fn grouped(pems: Seq<PEMLocator>, groups: Seq<FileGroup>) -> bool {
    &&& forall|g: int|
        #![trigger groups[g]]
        0 <= g < groups.len() ==> groups[g].locators@.len() > 0 && groups[g].locators@ == with_path(
            pems,
            groups[g].path@,
        )
    &&& forall|a: int, b: int|
        #![trigger groups[a], groups[b]]
        0 <= a < b < groups.len() ==> groups[a].path@ != groups[b].path@
    &&& forall|t: int| #![trigger pems[t]] 0 <= t < pems.len() ==> has_group(groups, pems[t].path@)
}

/// Extending a prefix of `s` by one locator extends the locators of `path`
/// by that locator exactly when it has that path.
pub proof fn lemma_with_path_step(s: Seq<PEMLocator>, i: int, path: Seq<char>)
    requires
        0 <= i < s.len(),
    ensures
        with_path(s.take(i + 1), path) == if s[i].path@ == path {
            with_path(s.take(i), path).push(s[i])
        } else {
            with_path(s.take(i), path)
        },
{
    reveal(Seq::filter);
    assert(s.take(i + 1).drop_last() =~= s.take(i));
    assert(s.take(i + 1).last() == s[i]);
}

/// Where no locator has the path, none is selected.
pub proof fn lemma_with_path_absent(s: Seq<PEMLocator>, path: Seq<char>)
    requires
        forall|t: int| #![trigger s[t]] 0 <= t < s.len() ==> s[t].path@ != path,
    ensures
        with_path(s, path) == Seq::<PEMLocator>::empty(),
    decreases s.len(),
{
    reveal(Seq::filter);
    if s.len() > 0 {
        let front = s.drop_last();
        assert forall|t: int| #![trigger front[t]] 0 <= t < front.len() implies front[t].path@
            != path by {
            assert(front[t] == s[t]);
        }
        lemma_with_path_absent(front, path);
        assert(s.last() == s[s.len() - 1]);
    }
}

/// Where every locator has the path, all are selected.
pub proof fn lemma_with_path_all(s: Seq<PEMLocator>, path: Seq<char>)
    requires
        forall|t: int| #![trigger s[t]] 0 <= t < s.len() ==> s[t].path@ == path,
    ensures
        with_path(s, path) == s,
    decreases s.len(),
{
    reveal(Seq::filter);
    if s.len() > 0 {
        let front = s.drop_last();
        assert forall|t: int| #![trigger front[t]] 0 <= t < front.len() implies front[t].path@
            == path by {
            assert(front[t] == s[t]);
        }
        lemma_with_path_all(front, path);
        assert(s.last() == s[s.len() - 1]);
        assert(with_path(s, path) =~= s);
    } else {
        assert(with_path(s, path) =~= s);
    }
}

/// Locators collected file after file are grouped file by file: where the
/// locators of one file stand together among those of other files, the
/// file's group holds exactly the file's locators, in their order.
pub proof fn lemma_group_of_file(
    before: Seq<PEMLocator>,
    file: Seq<PEMLocator>,
    after: Seq<PEMLocator>,
    groups: Seq<FileGroup>,
    g: int,
)
    requires
        grouped(before + file + after, groups),
        0 <= g < groups.len(),
        forall|t: int|
            #![trigger before[t]]
            0 <= t < before.len() ==> before[t].path@ != groups[g].path@,
        forall|t: int| #![trigger file[t]] 0 <= t < file.len() ==> file[t].path@ == groups[g].path@,
        forall|t: int|
            #![trigger after[t]]
            0 <= t < after.len() ==> after[t].path@ != groups[g].path@,
    ensures
        groups[g].locators@ == file,
{
    let path = groups[g].path@;
    lemma_with_path_absent(before, path);
    lemma_with_path_all(file, path);
    lemma_with_path_absent(after, path);
    Seq::filter_distributes_over_add(before + file, after, has_path(path));
    Seq::filter_distributes_over_add(before, file, has_path(path));
    assert(with_path(before + file + after, path) =~= file);
}

/// The index of the group of `path`, if there is one.
pub fn group_index(groups: &Vec<FileGroup>, path: &String) -> (r: Option<usize>)
    ensures
        match r {
            Some(j) => j < groups.len() && groups[j as int].path@ == path@,
            None => !has_group(groups@, path@),
        },
{
    let mut j: usize = 0;
    while j < groups.len()
        invariant
            j <= groups.len(),
            forall|g: int| #![trigger groups[g]] 0 <= g < j ==> groups[g].path@ != path@,
        decreases groups.len() - j,
    {
        if groups[j].path == *path {
            return Some(j);
        }
        j += 1;
    }
    None
}

/// Groups the locators by the file they point into: one group for each
/// path, and within a group the locators in the order they came in.
pub fn pems_by_path(pems: Vec<PEMLocator>) -> (groups: Vec<FileGroup>)
    ensures
        grouped(pems@, groups@),
{
    let mut groups: Vec<FileGroup> = Vec::new();
    let mut i: usize = 0;
    assert(pems@.take(0) =~= Seq::<PEMLocator>::empty());
    while i < pems.len()
        invariant
            i <= pems.len(),
            grouped(pems@.take(i as int), groups@),
        decreases pems.len() - i,
    {
        let ghost before = groups@;
        let ghost seen = pems@.take(i as int);
        let ghost next = pems@.take(i + 1);
        let item = pems[i].duplicate();
        let ghost path = item.path@;
        proof {
            assert forall|t: int| 0 <= t < i implies next[t] == seen[t] by {}
            assert(next[i as int] == pems@[i as int]);
        }
        match group_index(&groups, &item.path) {
            Some(j) => {
                let mut group = groups.remove(j);
                group.locators.push(item);
                groups.insert(j, group);
                proof {
                    assert(groups@.len() == before.len());
                    assert forall|g: int| 0 <= g < groups@.len() implies (#[trigger] groups@[g]).path
                        == before[g].path by {}
                    assert forall|g: int|
                        #![trigger groups@[g]]
                        0 <= g < groups@.len() implies groups@[g].locators@.len() > 0
                        && groups@[g].locators@ == with_path(next, groups@[g].path@) by {
                        lemma_with_path_step(pems@, i as int, before[g].path@);
                        if g != j {
                            assert(groups@[g] == before[g]);
                            if g < j {
                                assert(before[g].path@ != before[j as int].path@);
                            } else {
                                assert(before[j as int].path@ != before[g].path@);
                            }
                        }
                    }
                    assert forall|a: int, b: int|
                        #![trigger groups@[a], groups@[b]]
                        0 <= a < b < groups@.len() implies groups@[a].path@ != groups@[b].path@ by {
                        assert(before[a].path@ != before[b].path@);
                    }
                    assert forall|t: int| #![trigger next[t]] 0 <= t < next.len() implies has_group(
                        groups@,
                        next[t].path@,
                    ) by {
                        if t < i {
                            assert(has_group(before, seen[t].path@));
                            let w = choose|g: int|
                                0 <= g < before.len() && #[trigger] before[g].path@
                                    == seen[t].path@;
                            assert(groups@[w].path@ == next[t].path@);
                        } else {
                            assert(groups@[j as int].path@ == next[t].path@);
                        }
                    }
                }
            },
            None => {
                let mut locators: Vec<PEMLocator> = Vec::new();
                let group_path = item.path.clone();
                locators.push(item);
                groups.push(FileGroup { path: group_path, locators });
                proof {
                    assert forall|t: int| #![trigger seen[t]] 0 <= t < seen.len() implies seen[t].path@
                        != path by {
                        assert(has_group(before, seen[t].path@));
                    }
                    lemma_with_path_absent(seen, path);
                    assert forall|g: int|
                        #![trigger groups@[g]]
                        0 <= g < groups@.len() implies groups@[g].locators@.len() > 0
                        && groups@[g].locators@ == with_path(next, groups@[g].path@) by {
                        lemma_with_path_step(pems@, i as int, groups@[g].path@);
                        if g < before.len() {
                            assert(groups@[g] == before[g]);
                            assert(before[g].path@ != path);
                        } else {
                            assert(groups@[g].locators@ =~= Seq::<PEMLocator>::empty().push(
                                pems@[i as int],
                            ));
                        }
                    }
                    assert forall|a: int, b: int|
                        #![trigger groups@[a], groups@[b]]
                        0 <= a < b < groups@.len() implies groups@[a].path@ != groups@[b].path@ by {
                        assert(groups@[a] == before[a]);
                        if b < before.len() {
                            assert(groups@[b] == before[b]);
                        } else {
                            assert(before[a].path@ != path);
                        }
                    }
                    assert forall|t: int| #![trigger next[t]] 0 <= t < next.len() implies has_group(
                        groups@,
                        next[t].path@,
                    ) by {
                        if t < i {
                            assert(has_group(before, seen[t].path@));
                            let w = choose|g: int|
                                0 <= g < before.len() && #[trigger] before[g].path@
                                    == seen[t].path@;
                            assert(groups@[w] == before[w]);
                            assert(groups@[w].path@ == next[t].path@);
                        } else {
                            assert(groups@[before.len() as int].path@ == next[t].path@);
                        }
                    }
                }
            },
        }
        i += 1;
    }
    assert(pems@.take(i as int) =~= pems@);
    groups
}

} // verus!
