//! Working logs: what is known about the uncommitted lines on top of a commit.
use vstd::prelude::*;

use crate::authorship::attribution::{LineAttribution, LineAttributionView};
use crate::authorship::log::{HumanRecord, PromptRecord, SessionRecord};
use crate::string_map::{lists_keys, StringMap};
use crate::views::{lemma_push_view, views};

verus! {

/// The attributions with which a working log starts. `file_blobs` gives, for a file, the blob that
/// keeps its content.
pub struct InitialAttributions {
    pub files: StringMap<Vec<LineAttribution>>,
    pub prompts: StringMap<PromptRecord>,
    pub humans: StringMap<HumanRecord>,
    pub sessions: StringMap<SessionRecord>,
    pub file_blobs: StringMap<String>,
}

pub struct InitialAttributionsView {
    pub files: Map<Seq<char>, Seq<LineAttributionView>>,
    pub prompts: Map<Seq<char>, Seq<char>>,
    pub humans: Map<Seq<char>, Seq<char>>,
    pub sessions: Map<Seq<char>, Seq<char>>,
    pub file_blobs: Map<Seq<char>, Seq<char>>,
}

impl DeepView for InitialAttributions {
    type V = InitialAttributionsView;

    open spec fn deep_view(&self) -> InitialAttributionsView {
        InitialAttributionsView {
            files: self.files@,
            prompts: self.prompts@,
            humans: self.humans@,
            sessions: self.sessions@,
            file_blobs: self.file_blobs@,
        }
    }
}

/// An edit that was recorded, as the text in which the working log keeps it, with the blob of each
/// of its entries.
#[derive(Debug)]
pub struct Checkpoint {
    pub blob_shas: Vec<String>,
    pub record: String,
}

pub struct CheckpointView {
    pub blob_shas: Seq<Seq<char>>,
    pub record: Seq<char>,
}

impl DeepView for Checkpoint {
    type V = CheckpointView;

    open spec fn deep_view(&self) -> CheckpointView {
        CheckpointView { blob_shas: self.blob_shas.deep_view(), record: self.record@ }
    }
}

impl InitialAttributionsView {
    /// The file at `path` is known to `other` and not here.
    pub open spec fn lacks(self, other: InitialAttributionsView, path: Seq<char>) -> bool {
        other.files.contains_key(path) && !self.files.contains_key(path)
    }

    /// Some file is known to `other` and not here.
    pub open spec fn lacks_some(self, other: InitialAttributionsView) -> bool {
        exists|path: Seq<char>| #[trigger] self.lacks(other, path)
    }

    /// The blobs of the files that are known to `other` and not here.
    pub open spec fn lacking_blobs(self, other: InitialAttributionsView) -> Map<
        Seq<char>,
        Seq<char>,
    > {
        Map::new(
            |path: Seq<char>| self.lacks(other, path) && other.file_blobs.contains_key(path),
            |path: Seq<char>| other.file_blobs[path],
        )
    }

    /// These attributions, with what `other` knows and these do not: files with their blobs, and
    /// records.
    pub open spec fn supplemented(self, other: InitialAttributionsView) -> InitialAttributionsView {
        InitialAttributionsView {
            files: other.files.union_prefer_right(self.files),
            prompts: other.prompts.union_prefer_right(self.prompts),
            humans: other.humans.union_prefer_right(self.humans),
            sessions: other.sessions.union_prefer_right(self.sessions),
            file_blobs: self.file_blobs.union_prefer_right(self.lacking_blobs(other)),
        }
    }
}

/// The attributions of a working log after it was supplemented, and the blobs that it now needs.
pub struct Supplement {
    /// What to write, where a file was missing.
    pub write: Option<InitialAttributions>,
    /// The blobs of the files that were missing.
    pub copy_blobs: Vec<String>,
}

/// `shas` are the blobs of `blobs`: that of each path once, in some order of the paths.
pub open spec fn lists_blobs(shas: Seq<Seq<char>>, blobs: Map<Seq<char>, Seq<char>>) -> bool {
    exists|paths: Seq<Seq<char>>| #[trigger] lists_blobs_of(shas, paths, blobs)
}

/// `shas` are the blobs of `blobs`, in the order of `paths`.
pub open spec fn lists_blobs_of(
    shas: Seq<Seq<char>>,
    paths: Seq<Seq<char>>,
    blobs: Map<Seq<char>, Seq<char>>,
) -> bool {
    lists_keys(paths, blobs) && shas == paths.map_values(|path: Seq<char>| blobs[path])
}

/// Supplements `target` with what `other` knows about other files. What `target` has stays.
pub fn supplement(target: InitialAttributions, other: &InitialAttributions) -> (res: Supplement)
    ensures
        match res.write {
            Some(merged) => target.deep_view().lacks_some(other.deep_view()) && merged.deep_view()
                == target.deep_view().supplemented(other.deep_view()),
            None => !target.deep_view().lacks_some(other.deep_view()),
        },
        lists_blobs(
            res.copy_blobs.deep_view(),
            target.deep_view().lacking_blobs(other.deep_view()),
        ),
{
    let ghost before = target.deep_view();
    let ghost from = other.deep_view();
    let ghost lacking = before.lacking_blobs(from);
    let mut merged = target;
    let mut copy_blobs: Vec<String> = Vec::new();
    let mut added = false;
    let n = other.files.len();
    let ghost keys = other.files.keys();
    let ghost mut visited: Set<Seq<char>> = Set::empty();
    let ghost mut paths: Seq<Seq<char>> = Seq::empty();
    let mut i: usize = 0;
    assert(views(copy_blobs@) =~= paths.map_values(|path: Seq<char>| lacking[path]));
    while i < n
        invariant
            i <= n,
            n == keys.len(),
            keys == other.files.keys(),
            from == other.deep_view(),
            lacking == before.lacking_blobs(from),
            lists_keys(keys, from.files),
            merged.files@ == before.files,
            merged.prompts@ == before.prompts,
            merged.humans@ == before.humans,
            merged.sessions@ == before.sessions,
            forall|j: int| 0 <= j < i ==> visited.contains(#[trigger] keys[j]),
            added <==> exists|path: Seq<char>|
                visited.contains(path) && #[trigger] before.lacks(from, path),
            merged.file_blobs@ == before.file_blobs.union_prefer_right(lacking.restrict(visited)),
            paths.no_duplicates(),
            forall|path: Seq<char>| #[trigger]
                paths.contains(path) <==> visited.contains(path) && lacking.contains_key(path),
            views(copy_blobs@) == paths.map_values(|path: Seq<char>| lacking[path]),
            forall|path: Seq<char>| #[trigger]
                visited.contains(path) ==> exists|j: int| 0 <= j < i && keys[j] == path,
        decreases n - i,
    {
        let path = other.files.key_at(i);
        let ghost seen = visited;
        assert(!seen.contains(path@)) by {
            if seen.contains(path@) {
                let j = choose|j: int| 0 <= j < i && keys[j] == path@;
                assert(keys[i as int] == path@);
            }
        }
        proof {
            visited = visited.insert(path@);
        }
        if !merged.files.contains_key(path.as_str()) {
            added = true;
            assert(before.lacks(from, path@));
            match other.file_blobs.get(path.as_str()) {
                Some(sha) => {
                    proof {
                        assert(lacking.contains_key(path@));
                        lemma_push_view(copy_blobs@, *sha);
                        lemma_push_contains(paths, path@);
                        assert(!paths.contains(path@));
                        let longer = paths.push(path@);
                        assert(longer.no_duplicates());
                        assert(longer.map_values(|p: Seq<char>| lacking[p])
                            =~= paths.map_values(|p: Seq<char>| lacking[p]).push(lacking[path@]));
                        paths = longer;
                    }
                    copy_blobs.push(sha.clone());
                    merged.file_blobs.insert(path.clone(), sha.clone());
                },
                None => {},
            }
        }
        proof {
            assert(merged.file_blobs@ =~= before.file_blobs.union_prefer_right(
                lacking.restrict(visited),
            ));
            assert forall|p: Seq<char>| #[trigger] visited.contains(p) implies exists|j: int|
                0 <= j < i + 1 && keys[j] == p by {
                if seen.contains(p) {
                    let j = choose|j: int| 0 <= j < i && keys[j] == p;
                    assert(0 <= j < i + 1 && keys[j] == p);
                } else {
                    assert(keys[i as int] == p);
                }
            }
        }
        i = i + 1;
    }
    proof {
        assert forall|path: Seq<char>| from.files.contains_key(path) implies visited.contains(
            path,
        ) by {
            assert(keys.to_set().contains(path));
            let j = keys.index_of(path);
            assert(keys[j] == path);
        }
        assert(lacking.restrict(visited) =~= lacking);
        assert(views(copy_blobs@) =~= copy_blobs.deep_view());
        assert(lists_keys(paths, lacking));
        assert(lists_blobs_of(copy_blobs.deep_view(), paths, lacking));
    }
    if added {
        merged.files.add_missing(&other.files);
        merged.prompts.add_missing(&other.prompts);
        merged.humans.add_missing(&other.humans);
        merged.sessions.add_missing(&other.sessions);
        Supplement { write: Some(merged), copy_blobs }
    } else {
        Supplement { write: None, copy_blobs }
    }
}

/// One more element occurs, and no other.
proof fn lemma_push_contains<T>(list: Seq<T>, item: T)
    ensures
        forall|x: T| #[trigger] list.push(item).contains(x) <==> list.contains(x) || x == item,
{
    assert forall|x: T| #[trigger] list.push(item).contains(x) <==> list.contains(x) || x
        == item by {
        if list.contains(x) {
            assert(list.push(item)[list.index_of(x)] == x);
        }
        assert(list.push(item)[list.len() as int] == item);
    }
}

/// The blobs of the entries of checkpoints, in order, without entries that have none.
pub open spec fn checkpoint_blobs(checkpoints: Seq<CheckpointView>) -> Seq<Seq<char>>
    decreases checkpoints.len(),
{
    if checkpoints.len() == 0 {
        Seq::empty()
    } else {
        checkpoint_blobs(checkpoints.drop_last()) + named_blobs(checkpoints.last().blob_shas)
    }
}

/// The blobs that have a name, in order.
pub open spec fn named_blobs(shas: Seq<Seq<char>>) -> Seq<Seq<char>>
    decreases shas.len(),
{
    if shas.len() == 0 {
        Seq::empty()
    } else if shas.last().len() == 0 {
        named_blobs(shas.drop_last())
    } else {
        named_blobs(shas.drop_last()).push(shas.last())
    }
}

/// Adds the blobs that have a name to `out`.
fn push_named_blobs(out: &mut Vec<String>, shas: &Vec<String>)
    ensures
        views(final(out)@) == views(old(out)@) + named_blobs(shas.deep_view()),
{
    let ghost before = views(out@);
    let ghost all = shas.deep_view();
    let mut i: usize = 0;
    assert(before + named_blobs(all.take(0)) =~= before);
    while i < shas.len()
        invariant
            i <= shas.len(),
            all == shas.deep_view(),
            views(out@) == before + named_blobs(all.take(i as int)),
        decreases shas.len() - i,
    {
        let ghost so_far = named_blobs(all.take(i as int));
        proof {
            assert(all.take(i + 1).drop_last() =~= all.take(i as int));
            assert(all.take(i + 1).last() == shas@[i as int]@);
        }
        if !shas[i].as_str().is_empty() {
            proof {
                lemma_push_view(out@, shas@[i as int]);
                assert((before + so_far).push(all[i as int]) =~= before + so_far.push(
                    all[i as int],
                ));
            }
            out.push(shas[i].clone());
        }
        i = i + 1;
    }
    assert(all.take(i as int) =~= all);
}

/// The blobs that the entries of checkpoints refer to.
pub fn blobs_of_checkpoints(checkpoints: &Vec<Checkpoint>) -> (shas: Vec<String>)
    ensures
        shas.deep_view() == checkpoint_blobs(checkpoints.deep_view()),
{
    let mut shas: Vec<String> = Vec::new();
    let ghost all = checkpoints.deep_view();
    let mut i: usize = 0;
    while i < checkpoints.len()
        invariant
            i <= checkpoints.len(),
            all == checkpoints.deep_view(),
            views(shas@) == checkpoint_blobs(all.take(i as int)),
        decreases checkpoints.len() - i,
    {
        proof {
            assert(all.take(i + 1).drop_last() =~= all.take(i as int));
        }
        push_named_blobs(&mut shas, &checkpoints[i].blob_shas);
        i = i + 1;
    }
    assert(all.take(i as int) =~= all);
    assert(views(shas@) =~= shas.deep_view());
    shas
}

/// The checkpoints of one working log with those of another behind them.
pub fn append_checkpoints(target: Vec<Checkpoint>, other: Vec<Checkpoint>) -> (merged: Vec<
    Checkpoint,
>)
    ensures
        merged.deep_view() == target.deep_view() + other.deep_view(),
{
    let ghost before = target.deep_view();
    let ghost behind = other.deep_view();
    let mut merged = target;
    let mut rest = other;
    merged.append(&mut rest);
    assert(merged.deep_view() =~= before + behind);
    merged
}

/// Supplementing keeps what a working log has: its files with their attributions, and its
/// records.
pub proof fn law_supplement_keeps_what_is_there(
    target: InitialAttributionsView,
    other: InitialAttributionsView,
    key: Seq<char>,
)
    ensures
        target.files.contains_key(key) ==> target.supplemented(other).files.contains_key(key)
            && target.supplemented(other).files[key] == target.files[key],
        target.prompts.contains_key(key) ==> target.supplemented(other).prompts.contains_key(key)
            && target.supplemented(other).prompts[key] == target.prompts[key],
        target.humans.contains_key(key) ==> target.supplemented(other).humans.contains_key(key)
            && target.supplemented(other).humans[key] == target.humans[key],
        target.sessions.contains_key(key) ==> target.supplemented(other).sessions.contains_key(key)
            && target.supplemented(other).sessions[key] == target.sessions[key],
        target.files.contains_key(key) && target.file_blobs.contains_key(key)
            ==> target.supplemented(other).file_blobs[key] == target.file_blobs[key],
{
}

/// Supplementing loses nothing: every file and every record of either working log is known
/// afterwards, a file that was missing has its blob, and a second time there is nothing left to
/// add.
pub proof fn law_supplement_is_complete(
    target: InitialAttributionsView,
    other: InitialAttributionsView,
)
    ensures
        forall|path: Seq<char>| #[trigger]
            target.supplemented(other).files.contains_key(path) <==> target.files.contains_key(path)
                || other.files.contains_key(path),
        forall|path: Seq<char>| #[trigger]
            target.lacks(other, path) ==> target.supplemented(other).files[path]
                == other.files[path],
        forall|path: Seq<char>| #[trigger]
            target.lacks(other, path) && other.file_blobs.contains_key(path)
                ==> target.supplemented(other).file_blobs.contains_key(path)
                && target.supplemented(other).file_blobs[path] == other.file_blobs[path],
        forall|key: Seq<char>| #[trigger]
            target.supplemented(other).prompts.contains_key(key) <==> target.prompts.contains_key(
                key,
            ) || other.prompts.contains_key(key),
        forall|key: Seq<char>| #[trigger]
            target.supplemented(other).humans.contains_key(key) <==> target.humans.contains_key(key)
                || other.humans.contains_key(key),
        forall|key: Seq<char>| #[trigger]
            target.supplemented(other).sessions.contains_key(key) <==> target.sessions.contains_key(
                key,
            ) || other.sessions.contains_key(key),
        !target.supplemented(other).lacks_some(other),
{
}

} // verus!
