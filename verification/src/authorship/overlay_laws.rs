//! What laying attributions over each other, and carrying them over a diff, means line by line.
use vstd::prelude::*;

use crate::authorship::attribution::{
    credited_by, credits, kept_beside, overlaid, overlaid_all, trimmed_beside, LineAttribution,
    LineAttributionView,
};
use crate::authorship::hunk_shift::{
    all_shifted, law_shift_follows_lines, moves_to, resume, shifted, total_growth, DiffHunk,
};
use crate::views::lemma_flat_step;

verus! {

/// The view of an attribution holds all its fields.
pub proof fn law_attribution_view(attribution: LineAttribution)
    ensures
        attribution.deep_view().start_line == attribution.start_line,
        attribution.deep_view().end_line == attribution.end_line,
        attribution.deep_view().author_id == attribution.author_id@,
        attribution.overrode is None ==> attribution.deep_view().overrode is None,
        attribution.overrode matches Some(text) ==> attribution.deep_view().overrode == Some(text@),
{
}

proof fn lemma_kept(
    existing: Seq<LineAttributionView>,
    newer: LineAttributionView,
    stays: spec_fn(LineAttributionView) -> bool,
)
    requires
        forall|old: LineAttributionView| #[trigger] stays(old) <==> old.untouched_by(newer),
    ensures
        kept_beside(existing, newer) == existing.filter(stays),
    decreases existing.len(),
{
    reveal(Seq::filter);
    if existing.len() > 0 {
        lemma_kept(existing.drop_last(), newer, stays);
    }
}

proof fn lemma_trimmed(
    existing: Seq<LineAttributionView>,
    newer: LineAttributionView,
    left: spec_fn(LineAttributionView) -> Seq<LineAttributionView>,
)
    requires
        forall|old: LineAttributionView| #[trigger] left(old) == old.fragments_beside(newer),
    ensures
        trimmed_beside(existing, newer) == existing.map_values(left).flatten(),
    decreases existing.len(),
{
    if existing.len() > 0 {
        lemma_trimmed(existing.drop_last(), newer, left);
        lemma_flat_step(existing, left);
    }
}

/// One attribution laid over others: first come those that it neither covers nor overlaps, in
/// order; then, in order, what is left of those that it overlaps, the lines before it and the lines
/// behind it; then the attribution itself.
pub proof fn law_overlay_exactly(existing: Seq<LineAttributionView>, newer: LineAttributionView)
    ensures
        overlaid(existing, newer) == existing.filter(
            |old: LineAttributionView|
                !(newer.start_line <= old.start_line && old.end_line <= newer.end_line) && !(
                old.start_line < newer.start_line && newer.start_line <= old.end_line) && !(
                old.start_line <= newer.end_line && newer.end_line < old.end_line),
        ) + existing.map_values(
            |old: LineAttributionView|
                (if old.start_line < newer.start_line && newer.start_line <= old.end_line {
                    seq![
                        LineAttributionView {
                            start_line: old.start_line,
                            end_line: newer.start_line - 1,
                            author_id: old.author_id,
                            overrode: old.overrode,
                        },
                    ]
                } else {
                    Seq::empty()
                }) + (if old.start_line <= newer.end_line && newer.end_line < old.end_line {
                    seq![
                        LineAttributionView {
                            start_line: newer.end_line + 1,
                            end_line: old.end_line,
                            author_id: old.author_id,
                            overrode: old.overrode,
                        },
                    ]
                } else {
                    Seq::empty()
                }),
        ).flatten() + seq![newer],
{
    let stays = |old: LineAttributionView|
        !(newer.start_line <= old.start_line && old.end_line <= newer.end_line) && !(
        old.start_line < newer.start_line && newer.start_line <= old.end_line) && !(
        old.start_line <= newer.end_line && newer.end_line < old.end_line);
    let left = |old: LineAttributionView|
        (if old.start_line < newer.start_line && newer.start_line <= old.end_line {
            seq![
                LineAttributionView {
                    start_line: old.start_line,
                    end_line: newer.start_line - 1,
                    author_id: old.author_id,
                    overrode: old.overrode,
                },
            ]
        } else {
            Seq::empty()
        }) + (if old.start_line <= newer.end_line && newer.end_line < old.end_line {
            seq![
                LineAttributionView {
                    start_line: newer.end_line + 1,
                    end_line: old.end_line,
                    author_id: old.author_id,
                    overrode: old.overrode,
                },
            ]
        } else {
            Seq::empty()
        });
    assert forall|old: LineAttributionView| #[trigger] left(old) == old.fragments_beside(newer) by {
        assert(left(old) =~= old.fragments_beside(newer));
    }
    lemma_kept(existing, newer, stays);
    lemma_trimmed(existing, newer, left);
}

proof fn lemma_overlaid_fold(
    existing: Seq<LineAttributionView>,
    newer: Seq<LineAttributionView>,
    lay: spec_fn(Seq<LineAttributionView>, LineAttributionView) -> Seq<LineAttributionView>,
)
    requires
        forall|list: Seq<LineAttributionView>, next: LineAttributionView| #[trigger]
            lay(list, next) == overlaid(list, next),
    ensures
        overlaid_all(existing, newer) == newer.fold_left(existing, lay),
    decreases newer.len(),
{
    if newer.len() > 0 {
        lemma_overlaid_fold(existing, newer.drop_last(), lay);
    }
}

/// Several attributions are laid over others one after the other, the first of them first.
pub proof fn law_overlays_in_turn(
    existing: Seq<LineAttributionView>,
    newer: Seq<LineAttributionView>,
)
    ensures
        overlaid_all(existing, newer) == newer.fold_left(
            existing,
            |list: Seq<LineAttributionView>, next: LineAttributionView| overlaid(list, next),
        ),
{
    lemma_overlaid_fold(
        existing,
        newer,
        |list: Seq<LineAttributionView>, next: LineAttributionView| overlaid(list, next),
    );
}

/// By how many lines hunks make a file longer.
pub open spec fn lines_added(hunks: Seq<DiffHunk>) -> int {
    hunks.fold_left(0, |sum: int, hunk: DiffHunk| sum + hunk.new_count - hunk.old_count)
}

/// The old line `line` is untouched and has the number `moved` afterwards: it stands behind the
/// first `n` hunks, and before the next one. A hunk without old lines adds its lines behind line
/// `old_start`; any other replaces `old_count` lines from `old_start` on.
pub open spec fn is_moved(hunks: Seq<DiffHunk>, n: int, line: int, moved: int) -> bool {
    &&& 0 <= n <= hunks.len()
    &&& forall|k: int|
        #![trigger hunks[k]]
        0 <= k < n ==> if hunks[k].old_count == 0 {
            hunks[k].old_start < line
        } else {
            hunks[k].old_start + hunks[k].old_count <= line
        }
    &&& n < hunks.len() ==> if hunks[n].old_count == 0 {
        line <= hunks[n].old_start
    } else {
        line < hunks[n].old_start
    }
    &&& moved == line + lines_added(hunks.take(n))
}

proof fn lemma_resume(hunks: Seq<DiffHunk>, n: int, line: int)
    requires
        0 <= n <= hunks.len(),
        0 <= line,
    ensures
        resume(hunks, n) <= line <==> forall|k: int|
            #![trigger hunks[k]]
            0 <= k < n ==> if hunks[k].old_count == 0 {
                hunks[k].old_start < line
            } else {
                hunks[k].old_start + hunks[k].old_count <= line
            },
    decreases n,
{
    if n > 0 {
        lemma_resume(hunks, n - 1, line);
        let last = hunks[n - 1];
        assert(last.line_behind() <= line <==> if last.old_count == 0 {
            last.old_start < line
        } else {
            last.old_start + last.old_count <= line
        });
    }
}

proof fn lemma_growth(hunks: Seq<DiffHunk>, n: int, grow: spec_fn(int, DiffHunk) -> int)
    requires
        0 <= n <= hunks.len(),
        forall|sum: int, hunk: DiffHunk| #[trigger]
            grow(sum, hunk) == sum + hunk.new_count - hunk.old_count,
    ensures
        total_growth(hunks, n) == hunks.take(n).fold_left(0, grow),
    decreases n,
{
    if n > 0 {
        lemma_growth(hunks, n - 1, grow);
        assert(hunks.take(n).drop_last() =~= hunks.take(n - 1));
        assert(hunks.take(n).last() == hunks[n - 1]);
    }
}

proof fn lemma_is_moved(hunks: Seq<DiffHunk>, n: int, line: int, moved: int)
    requires
        0 <= line,
    ensures
        is_moved(hunks, n, line, moved) <==> moves_to(hunks, n, line, moved),
{
    if 0 <= n <= hunks.len() {
        lemma_resume(hunks, n, line);
        lemma_growth(
            hunks,
            n,
            |sum: int, hunk: DiffHunk| sum + hunk.new_count - hunk.old_count,
        );
    }
}

/// A line has an author after a diff exactly where it is an old line that the diff left and that
/// had this author: lines between the hunks keep their authors and move with the hunks before them,
/// and lines that a hunk replaced have none.
pub proof fn law_lines_move_with_the_hunks(
    attribution: LineAttributionView,
    hunks: Seq<DiffHunk>,
    moved: int,
    author: Seq<char>,
    overrode: Option<Seq<char>>,
)
    requires
        0 <= attribution.start_line,
        0 <= moved <= u32::MAX,
    ensures
        (exists|i: int|
            #![trigger shifted(attribution, hunks)[i]]
            0 <= i < shifted(attribution, hunks).len() && shifted(attribution, hunks)[i].start_line
                <= moved <= shifted(attribution, hunks)[i].end_line && shifted(
                attribution,
                hunks,
            )[i].author_id == author && shifted(attribution, hunks)[i].overrode == overrode)
            <==> exists|n: int, line: int| #[trigger]
            is_moved(hunks, n, line, moved) && attribution.start_line <= line
                <= attribution.end_line && attribution.author_id == author && attribution.overrode
                == overrode,
{
    let list = shifted(attribution, hunks);
    law_shift_follows_lines(attribution, hunks, moved, author, overrode);
    assert(credits(list, moved, author, overrode) <==> exists|i: int|
        #![trigger list[i]]
        0 <= i < list.len() && list[i].start_line <= moved <= list[i].end_line && list[i].author_id
            == author && list[i].overrode == overrode);
    if exists|n: int, line: int| #[trigger]
        is_moved(hunks, n, line, moved) && attribution.start_line <= line <= attribution.end_line
            && attribution.author_id == author && attribution.overrode == overrode {
        let (n, line) = choose|n: int, line: int| #[trigger]
            is_moved(hunks, n, line, moved) && attribution.start_line <= line
                <= attribution.end_line && attribution.author_id == author && attribution.overrode
                == overrode;
        lemma_is_moved(hunks, n, line, moved);
        assert(moves_to(hunks, n, line, moved) && credited_by(attribution, line, author, overrode));
    }
    if exists|n: int, line: int| #[trigger]
        moves_to(hunks, n, line, moved) && credited_by(attribution, line, author, overrode) {
        let (n, line) = choose|n: int, line: int| #[trigger]
            moves_to(hunks, n, line, moved) && credited_by(attribution, line, author, overrode);
        lemma_is_moved(hunks, n, line, moved);
        assert(is_moved(hunks, n, line, moved));
    }
}

proof fn lemma_all_shifted(
    attributions: Seq<LineAttributionView>,
    hunks: Seq<DiffHunk>,
    shift: spec_fn(LineAttributionView) -> Seq<LineAttributionView>,
)
    requires
        forall|attribution: LineAttributionView| #[trigger]
            shift(attribution) == shifted(attribution, hunks),
    ensures
        all_shifted(attributions, hunks) == attributions.map_values(shift).flatten(),
    decreases attributions.len(),
{
    if attributions.len() > 0 {
        lemma_all_shifted(attributions.drop_last(), hunks, shift);
        lemma_flat_step(attributions, shift);
    }
}

/// Several attributions are carried over a diff each on its own, in order.
pub proof fn law_each_is_shifted(attributions: Seq<LineAttributionView>, hunks: Seq<DiffHunk>)
    ensures
        all_shifted(attributions, hunks) == attributions.map_values(
            |attribution: LineAttributionView| shifted(attribution, hunks),
        ).flatten(),
{
    lemma_all_shifted(
        attributions,
        hunks,
        |attribution: LineAttributionView| shifted(attribution, hunks),
    );
}

} // verus!
