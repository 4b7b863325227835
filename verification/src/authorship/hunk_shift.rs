//! Carrying line attributions over a diff.
use vstd::prelude::*;

use crate::authorship::attribution::{
    all_valid, credited_by, credits, lemma_credits_add, lemma_credits_push, LineAttribution,
    LineAttributionView,
};
use crate::views::{lemma_push_view, views, Duplicate};

verus! {

/// A hunk of a diff: `old_count` lines from `old_start` on give way to `new_count` lines from
/// `new_start` on. Where `old_count` is 0, the new lines stand behind line `old_start`.
#[derive(Clone, Copy, Debug)]
pub struct DiffHunk {
    pub old_start: u32,
    pub old_count: u32,
    pub new_start: u32,
    pub new_count: u32,
}

impl DeepView for DiffHunk {
    type V = DiffHunk;

    open spec fn deep_view(&self) -> DiffHunk {
        *self
    }
}

impl Duplicate for DiffHunk {
    fn duplicate(&self) -> (copy: Self) {
        *self
    }
}

impl DiffHunk {
    /// The first old line that stands at the hunk or behind it.
    pub open spec fn first_line(self) -> int {
        if self.old_count == 0 {
            self.old_start + 1
        } else {
            self.old_start as int
        }
    }

    /// The first old line behind the hunk.
    pub open spec fn line_behind(self) -> int {
        self.first_line() + self.old_count
    }

    /// By how much the hunk moves the lines behind it.
    pub open spec fn growth(self) -> int {
        self.new_count - self.old_count
    }
}

/// The attribution for the lines `from` to `to`, moved by `offset`, as far as there are such lines
/// and they have numbers after the move.
pub open spec fn moved_piece(
    attribution: LineAttributionView,
    from: int,
    to: int,
    offset: int,
) -> Seq<LineAttributionView> {
    let start = if from + offset < 0 {
        0
    } else {
        from + offset
    };
    let end = if to + offset > u32::MAX {
        u32::MAX as int
    } else {
        to + offset
    };
    if from <= to && start <= end {
        seq![attribution.with_lines(start, end)]
    } else {
        Seq::empty()
    }
}

pub open spec fn larger(a: int, b: int) -> int {
    if a >= b {
        a
    } else {
        b
    }
}

pub open spec fn smaller(a: int, b: int) -> int {
    if a <= b {
        a
    } else {
        b
    }
}

/// What the first `n` hunks let through of the lines before them, piece by piece.
pub open spec fn pieces_before(
    attribution: LineAttributionView,
    hunks: Seq<DiffHunk>,
    n: int,
) -> Seq<LineAttributionView>
    decreases n,
{
    if n <= 0 {
        Seq::empty()
    } else {
        pieces_before(attribution, hunks, n - 1) + moved_piece(
            attribution,
            larger(attribution.start_line, resume(hunks, n - 1)),
            smaller(attribution.end_line, hunks[n - 1].first_line() - 1),
            total_growth(hunks, n - 1),
        )
    }
}

/// The first line behind all of the first `n` hunks.
pub open spec fn resume(hunks: Seq<DiffHunk>, n: int) -> int
    decreases n,
{
    if n <= 0 {
        0
    } else {
        larger(resume(hunks, n - 1), hunks[n - 1].line_behind())
    }
}

/// By how much the first `n` hunks move the lines behind them.
pub open spec fn total_growth(hunks: Seq<DiffHunk>, n: int) -> int
    decreases n,
{
    if n <= 0 {
        0
    } else {
        total_growth(hunks, n - 1) + hunks[n - 1].growth()
    }
}

/// The attribution in the numbering of the new side of the diff: the lines between the hunks,
/// each moved by what the hunks before it add or take away.
pub open spec fn shifted(attribution: LineAttributionView, hunks: Seq<DiffHunk>) -> Seq<
    LineAttributionView,
> {
    pieces_before(attribution, hunks, hunks.len() as int) + moved_piece(
        attribution,
        larger(attribution.start_line, resume(hunks, hunks.len() as int)),
        attribution.end_line,
        total_growth(hunks, hunks.len() as int),
    )
}

/// Each attribution in the numbering of the new side, in order.
pub open spec fn all_shifted(
    attributions: Seq<LineAttributionView>,
    hunks: Seq<DiffHunk>,
) -> Seq<LineAttributionView>
    decreases attributions.len(),
{
    if attributions.len() == 0 {
        Seq::empty()
    } else {
        all_shifted(attributions.drop_last(), hunks) + shifted(attributions.last(), hunks)
    }
}

/// Adds the lines `from` to `to` of an attribution, moved by `offset`, to `out`.
fn push_moved(
    out: &mut Vec<LineAttribution>,
    attribution: &LineAttribution,
    from: i128,
    to: i128,
    offset: i128,
)
    requires
        -0x4_0000_0000 <= from <= 0x4_0000_0000,
        -0x4_0000_0000 <= to <= 0x4_0000_0000,
        -0x1_0000_0000_0000_0000_0000_0000_0000 <= offset
            <= 0x1_0000_0000_0000_0000_0000_0000_0000,
    ensures
        views(final(out)@) == views(old(out)@) + moved_piece(
            attribution.deep_view(),
            from as int,
            to as int,
            offset as int,
        ),
{
    let ghost before = views(out@);
    let start: i128 = if from + offset < 0 {
        0
    } else {
        from + offset
    };
    let end: i128 = if to + offset > u32::MAX as i128 {
        u32::MAX as i128
    } else {
        to + offset
    };
    if from <= to && start <= end {
        let piece = attribution.with_lines(start as u32, end as u32);
        proof {
            lemma_push_view(out@, piece);
        }
        out.push(piece);
    }
    assert(views(out@) =~= before + moved_piece(
        attribution.deep_view(),
        from as int,
        to as int,
        offset as int,
    ));
}

/// Adds an attribution, in the numbering of the new side of the diff, to `out`.
fn push_shifted(out: &mut Vec<LineAttribution>, attribution: &LineAttribution, hunks: &Vec<DiffHunk>)
    ensures
        views(final(out)@) == views(old(out)@) + shifted(attribution.deep_view(), hunks@),
{
    let ghost before = views(out@);
    let ghost view = attribution.deep_view();
    let mut resume_at: i128 = 0;
    let mut offset: i128 = 0;
    let mut i: usize = 0;
    assert(before + pieces_before(view, hunks@, 0) =~= before);
    while i < hunks.len()
        invariant
            i <= hunks.len(),
            view == attribution.deep_view(),
            views(out@) == before + pieces_before(view, hunks@, i as int),
            resume_at == resume(hunks@, i as int),
            offset == total_growth(hunks@, i as int),
            0 <= resume_at <= 0x2_0000_0000,
            -0x1_0000_0000 * i <= offset <= 0x1_0000_0000 * i,
        decreases hunks.len() - i,
    {
        let hunk = hunks[i];
        let first: i128 = if hunk.old_count == 0 {
            hunk.old_start as i128 + 1
        } else {
            hunk.old_start as i128
        };
        let behind: i128 = first + hunk.old_count as i128;
        let start: i128 = attribution.start_line as i128;
        let end: i128 = attribution.end_line as i128;
        let from: i128 = if start >= resume_at {
            start
        } else {
            resume_at
        };
        let to: i128 = if end <= first - 1 {
            end
        } else {
            first - 1
        };
        let ghost so_far = views(out@);
        push_moved(out, attribution, from, to, offset);
        proof {
            assert(views(out@) =~= before + pieces_before(view, hunks@, i + 1));
        }
        if behind > resume_at {
            resume_at = behind;
        }
        offset = offset + (hunk.new_count as i128 - hunk.old_count as i128);
        i = i + 1;
    }
    let start: i128 = attribution.start_line as i128;
    let end: i128 = attribution.end_line as i128;
    let from: i128 = if start >= resume_at {
        start
    } else {
        resume_at
    };
    push_moved(out, attribution, from, end, offset);
    assert(views(out@) =~= before + shifted(view, hunks@));
}

/// The attributions in the numbering of the new side of the diff. Lines that a hunk replaces are
/// left out; lines between the hunks move with them.
pub fn apply_hunk_shifts_to_line_attributions(
    attributions: &Vec<LineAttribution>,
    hunks: &Vec<DiffHunk>,
) -> (result: Vec<LineAttribution>)
    ensures
        result.deep_view() == all_shifted(attributions.deep_view(), hunks@),
{
    let mut result: Vec<LineAttribution> = Vec::new();
    let ghost all = views(attributions@);
    let mut i: usize = 0;
    while i < attributions.len()
        invariant
            i <= attributions.len(),
            all == views(attributions@),
            views(result@) == all_shifted(all.take(i as int), hunks@),
        decreases attributions.len() - i,
    {
        proof {
            assert(all.take(i + 1).drop_last() =~= all.take(i as int));
        }
        push_shifted(&mut result, &attributions[i], hunks);
        i = i + 1;
    }
    proof {
        assert(all.take(i as int) =~= attributions.deep_view());
        assert(views(result@) =~= result.deep_view());
    }
    result
}

/// `line` stands behind the first `n` hunks and before the next one.
pub open spec fn between(hunks: Seq<DiffHunk>, n: int, line: int) -> bool {
    &&& 0 <= n <= hunks.len()
    &&& resume(hunks, n) <= line
    &&& n < hunks.len() ==> line < hunks[n].first_line()
}

/// The old line `line`, which stands behind the first `n` hunks, is line `moved` of the new side.
pub open spec fn moves_to(hunks: Seq<DiffHunk>, n: int, line: int, moved: int) -> bool {
    between(hunks, n, line) && moved == line + total_growth(hunks, n)
}

/// `moved` comes, over fewer than `limit` hunks, from a line that the attribution is about.
spec fn comes_from(
    attribution: LineAttributionView,
    hunks: Seq<DiffHunk>,
    limit: int,
    moved: int,
) -> bool {
    exists|n: int, line: int|
        0 <= n < limit && #[trigger] moves_to(hunks, n, line, moved) && attribution.covers(line)
}

proof fn lemma_moved_piece(
    attribution: LineAttributionView,
    from: int,
    to: int,
    offset: int,
    moved: int,
    author: Seq<char>,
    overrode: Option<Seq<char>>,
)
    requires
        0 <= moved <= u32::MAX,
    ensures
        credits(moved_piece(attribution, from, to, offset), moved, author, overrode) <==> from
            <= moved - offset <= to && attribution.author_id == author && attribution.overrode
            == overrode,
{
    let empty = Seq::<LineAttributionView>::empty();
    let piece = moved_piece(attribution, from, to, offset);
    if piece.len() > 0 {
        lemma_credits_push(empty, piece[0], moved, author, overrode);
        assert(empty.push(piece[0]) =~= piece);
    }
}

proof fn lemma_pieces_before(
    attribution: LineAttributionView,
    hunks: Seq<DiffHunk>,
    n: int,
    moved: int,
    author: Seq<char>,
    overrode: Option<Seq<char>>,
)
    requires
        0 <= n <= hunks.len(),
        0 <= moved <= u32::MAX,
        0 <= attribution.start_line,
    ensures
        credits(pieces_before(attribution, hunks, n), moved, author, overrode) <==> comes_from(
            attribution,
            hunks,
            n,
            moved,
        ) && attribution.author_id == author && attribution.overrode == overrode,
    decreases n,
{
    if n > 0 {
        let from = larger(attribution.start_line, resume(hunks, n - 1));
        let to = smaller(attribution.end_line, hunks[n - 1].first_line() - 1);
        let offset = total_growth(hunks, n - 1);
        lemma_pieces_before(attribution, hunks, n - 1, moved, author, overrode);
        lemma_moved_piece(attribution, from, to, offset, moved, author, overrode);
        lemma_credits_add(
            pieces_before(attribution, hunks, n - 1),
            moved_piece(attribution, from, to, offset),
            moved,
            author,
            overrode,
        );
        if from <= moved - offset <= to {
            assert(moves_to(hunks, n - 1, moved - offset, moved));
        }
        if comes_from(attribution, hunks, n, moved) {
            let (k, line) = choose|k: int, line: int|
                0 <= k < n && #[trigger] moves_to(hunks, k, line, moved) && attribution.covers(
                    line,
                );
            if k < n - 1 {
                assert(comes_from(attribution, hunks, n - 1, moved));
            }
        }
        if comes_from(attribution, hunks, n - 1, moved) {
            let (k, line) = choose|k: int, line: int|
                0 <= k < n - 1 && #[trigger] moves_to(hunks, k, line, moved) && attribution.covers(
                    line,
                );
            assert(0 <= k < n && moves_to(hunks, k, line, moved));
        }
    }
}

/// An attribution carried over a diff is about a line of the new side exactly where that line
/// stands between hunks on the old side too and the attribution was about it there.
pub proof fn law_shift_follows_lines(
    attribution: LineAttributionView,
    hunks: Seq<DiffHunk>,
    moved: int,
    author: Seq<char>,
    overrode: Option<Seq<char>>,
)
    requires
        0 <= attribution.start_line,
        0 <= moved <= u32::MAX,
    ensures
        credits(shifted(attribution, hunks), moved, author, overrode) <==> exists|
            n: int,
            line: int,
        | #[trigger]
            moves_to(hunks, n, line, moved) && credited_by(attribution, line, author, overrode),
{
    let n = hunks.len() as int;
    let from = larger(attribution.start_line, resume(hunks, n));
    let offset = total_growth(hunks, n);
    lemma_pieces_before(attribution, hunks, n, moved, author, overrode);
    lemma_moved_piece(attribution, from, attribution.end_line, offset, moved, author, overrode);
    lemma_credits_add(
        pieces_before(attribution, hunks, n),
        moved_piece(attribution, from, attribution.end_line, offset),
        moved,
        author,
        overrode,
    );
    if credits(shifted(attribution, hunks), moved, author, overrode) {
        if comes_from(attribution, hunks, n, moved) {
            let (k, line) = choose|k: int, line: int|
                0 <= k < n && #[trigger] moves_to(hunks, k, line, moved) && attribution.covers(
                    line,
                );
            assert(moves_to(hunks, k, line, moved) && credited_by(
                attribution,
                line,
                author,
                overrode,
            ));
        } else {
            assert(moves_to(hunks, n, moved - offset, moved) && credited_by(
                attribution,
                moved - offset,
                author,
                overrode,
            ));
        }
    }
    if exists|k: int, line: int| #[trigger]
        moves_to(hunks, k, line, moved) && credited_by(attribution, line, author, overrode) {
        let (k, line) = choose|k: int, line: int| #[trigger]
            moves_to(hunks, k, line, moved) && credited_by(attribution, line, author, overrode);
        if k < n {
            assert(comes_from(attribution, hunks, n, moved));
        }
    }
}

/// Without hunks every attribution stays as it is.
pub proof fn law_no_hunks_no_shift(attribution: LineAttributionView)
    requires
        0 <= attribution.start_line <= attribution.end_line <= u32::MAX,
    ensures
        shifted(attribution, Seq::empty()) == seq![attribution],
{
    assert(shifted(attribution, Seq::empty()) =~= seq![attribution]);
}

proof fn lemma_pieces_valid(attribution: LineAttributionView, hunks: Seq<DiffHunk>, n: int)
    ensures
        all_valid(pieces_before(attribution, hunks, n)),
    decreases n,
{
    if n > 0 {
        lemma_pieces_valid(attribution, hunks, n - 1);
    }
}

/// Carrying attributions over a diff makes none that is about no line.
pub proof fn law_shift_stays_valid(attributions: Seq<LineAttributionView>, hunks: Seq<DiffHunk>)
    ensures
        all_valid(all_shifted(attributions, hunks)),
    decreases attributions.len(),
{
    if attributions.len() > 0 {
        law_shift_stays_valid(attributions.drop_last(), hunks);
        lemma_pieces_valid(attributions.last(), hunks, hunks.len() as int);
    }
}

} // verus!
