//! Line attributions, and laying newer ones over older ones.
use vstd::prelude::*;

use crate::views::{lemma_push_view, views, Duplicate};

verus! {

/// The lines `start_line` to `end_line` of a file, with the author to whom they are attributed.
#[derive(Debug)]
pub struct LineAttribution {
    pub start_line: u32,
    pub end_line: u32,
    pub author_id: String,
    pub overrode: Option<String>,
}

/// What a line attribution says.
pub struct LineAttributionView {
    pub start_line: int,
    pub end_line: int,
    pub author_id: Seq<char>,
    pub overrode: Option<Seq<char>>,
}

impl DeepView for LineAttribution {
    type V = LineAttributionView;

    open spec fn deep_view(&self) -> LineAttributionView {
        LineAttributionView {
            start_line: self.start_line as int,
            end_line: self.end_line as int,
            author_id: self.author_id@,
            overrode: self.overrode.deep_view(),
        }
    }
}

impl LineAttributionView {
    /// The attribution is about `line`.
    pub open spec fn covers(self, line: int) -> bool {
        self.start_line <= line <= self.end_line
    }

    /// The same attribution for the lines `start_line` to `end_line`.
    pub open spec fn with_lines(self, start_line: int, end_line: int) -> LineAttributionView {
        LineAttributionView { start_line, end_line, ..self }
    }

    /// `self` starts before `newer` and reaches into it.
    pub open spec fn head_overlap(self, newer: LineAttributionView) -> bool {
        self.start_line < newer.start_line && self.end_line >= newer.start_line
    }

    /// `self` starts inside `newer`, or before it, and goes on behind it.
    pub open spec fn tail_overlap(self, newer: LineAttributionView) -> bool {
        self.end_line > newer.end_line && self.start_line <= newer.end_line
    }

    /// `self` lies within `newer`.
    pub open spec fn within(self, newer: LineAttributionView) -> bool {
        self.start_line >= newer.start_line && self.end_line <= newer.end_line
    }

    /// `newer` leaves `self` as it is.
    pub open spec fn untouched_by(self, newer: LineAttributionView) -> bool {
        !self.within(newer) && !self.head_overlap(newer) && !self.tail_overlap(newer)
    }

    /// What `newer` leaves of an attribution that it overlaps: the head before it and the tail
    /// behind it, as far as there are such lines.
    pub open spec fn fragments_beside(self, newer: LineAttributionView) -> Seq<
        LineAttributionView,
    > {
        let head = if self.head_overlap(newer) {
            seq![self.with_lines(self.start_line, newer.start_line - 1)]
        } else {
            Seq::empty()
        };
        let tail = if self.tail_overlap(newer) {
            seq![self.with_lines(newer.end_line + 1, self.end_line)]
        } else {
            Seq::empty()
        };
        head + tail
    }
}

/// The attributions that `newer` leaves as they are, in order.
pub open spec fn kept_beside(
    existing: Seq<LineAttributionView>,
    newer: LineAttributionView,
) -> Seq<LineAttributionView>
    decreases existing.len(),
{
    if existing.len() == 0 {
        Seq::empty()
    } else {
        let rest = kept_beside(existing.drop_last(), newer);
        if existing.last().untouched_by(newer) {
            rest.push(existing.last())
        } else {
            rest
        }
    }
}

/// The fragments that `newer` leaves of the attributions that it overlaps, in order.
pub open spec fn trimmed_beside(
    existing: Seq<LineAttributionView>,
    newer: LineAttributionView,
) -> Seq<LineAttributionView>
    decreases existing.len(),
{
    if existing.len() == 0 {
        Seq::empty()
    } else {
        trimmed_beside(existing.drop_last(), newer) + existing.last().fragments_beside(newer)
    }
}

/// `newer` laid over `existing`: first what it leaves untouched, then the fragments of what it
/// overlaps, then `newer` itself.
pub open spec fn overlaid(
    existing: Seq<LineAttributionView>,
    newer: LineAttributionView,
) -> Seq<LineAttributionView> {
    kept_beside(existing, newer) + trimmed_beside(existing, newer) + seq![newer]
}

/// Each of `newer` in turn laid over `existing`.
pub open spec fn overlaid_all(
    existing: Seq<LineAttributionView>,
    newer: Seq<LineAttributionView>,
) -> Seq<LineAttributionView>
    decreases newer.len(),
{
    if newer.len() == 0 {
        existing
    } else {
        overlaid(overlaid_all(existing, newer.drop_last()), newer.last())
    }
}

/// `line` is attributed to `author`, with `overrode` for the author overridden there.
pub open spec fn credits(
    attributions: Seq<LineAttributionView>,
    line: int,
    author: Seq<char>,
    overrode: Option<Seq<char>>,
) -> bool {
    exists|i: int|
        0 <= i < attributions.len() && credited_by(#[trigger] attributions[i], line, author, overrode)
}

/// `attribution` attributes `line` to `author`, with `overrode` for the author overridden there.
pub open spec fn credited_by(
    attribution: LineAttributionView,
    line: int,
    author: Seq<char>,
    overrode: Option<Seq<char>>,
) -> bool {
    attribution.covers(line) && attribution.author_id == author && attribution.overrode == overrode
}

/// A copy of an optional text.
pub fn copy_option(text: &Option<String>) -> (copy: Option<String>)
    ensures
        copy == *text,
{
    match text {
        Some(text) => Some(text.clone()),
        None => None,
    }
}

impl Duplicate for LineAttribution {
    fn duplicate(&self) -> (copy: Self) {
        LineAttribution::new(
            self.start_line,
            self.end_line,
            self.author_id.clone(),
            copy_option(&self.overrode),
        )
    }
}

impl LineAttribution {
    pub fn new(
        start_line: u32,
        end_line: u32,
        author_id: String,
        overrode: Option<String>,
    ) -> (attribution: Self)
        ensures
            attribution.start_line == start_line,
            attribution.end_line == end_line,
            attribution.author_id == author_id,
            attribution.overrode == overrode,
    {
        LineAttribution { start_line, end_line, author_id, overrode }
    }

    /// The same attribution for the lines `start_line` to `end_line`.
    pub fn with_lines(&self, start_line: u32, end_line: u32) -> (attribution: Self)
        ensures
            attribution.deep_view() == self.deep_view().with_lines(
                start_line as int,
                end_line as int,
            ),
    {
        LineAttribution::new(
            start_line,
            end_line,
            self.author_id.clone(),
            copy_option(&self.overrode),
        )
    }
}

/// Lays `newer` over `existing`. Attributions within `newer` go; those that overlap it are trimmed
/// to the lines before it and behind it, both of which survive where `newer` lies strictly inside.
pub fn overlay(existing: Vec<LineAttribution>, newer: LineAttribution) -> (result: Vec<
    LineAttribution,
>)
    ensures
        result.deep_view() == overlaid(existing.deep_view(), newer.deep_view()),
{
    let ghost all = existing@;
    let ghost over = newer.deep_view();
    let mut kept: Vec<LineAttribution> = Vec::new();
    let mut trimmed: Vec<LineAttribution> = Vec::new();
    for old in iter: existing
        invariant
            iter.seq() == all,
            over == newer.deep_view(),
            views(kept@) == kept_beside(views(all).take(iter.index() as int), over),
            views(trimmed@) == trimmed_beside(views(all).take(iter.index() as int), over),
    {
        let ghost done = iter.index() as int;
        proof {
            assert(views(all).take(done + 1).drop_last() =~= views(all).take(done));
            assert(views(all).take(done + 1).last() == old.deep_view());
        }
        let ghost trimmed_before = trimmed@;
        let head_overlap = old.start_line < newer.start_line && old.end_line >= newer.start_line;
        let tail_overlap = old.end_line > newer.end_line && old.start_line <= newer.end_line;
        if head_overlap {
            let head = old.with_lines(old.start_line, newer.start_line - 1);
            proof {
                lemma_push_view(trimmed@, head);
            }
            trimmed.push(head);
        }
        if tail_overlap {
            let tail = old.with_lines(newer.end_line + 1, old.end_line);
            proof {
                lemma_push_view(trimmed@, tail);
            }
            trimmed.push(tail);
        }
        assert(views(trimmed@) =~= views(trimmed_before) + old.deep_view().fragments_beside(over));
        let within = old.start_line >= newer.start_line && old.end_line <= newer.end_line;
        if !head_overlap && !tail_overlap && !within {
            proof {
                lemma_push_view(kept@, old);
            }
            kept.push(old);
        }
    }
    proof {
        assert(views(all).take(all.len() as int) =~= views(all));
        assert(views(all) =~= existing.deep_view());
    }
    let ghost kept_views = views(kept@);
    let ghost trimmed_views = views(trimmed@);
    kept.append(&mut trimmed);
    kept.push(newer);
    assert(kept.deep_view() =~= kept_views + trimmed_views + seq![over]);
    kept
}

/// Lays each of `newer` in turn over `existing`.
pub fn overlay_all(existing: Vec<LineAttribution>, newer: Vec<LineAttribution>) -> (result: Vec<
    LineAttribution,
>)
    ensures
        result.deep_view() == overlaid_all(existing.deep_view(), newer.deep_view()),
{
    let ghost all = newer@;
    let ghost base = existing.deep_view();
    let mut result = existing;
    for attribution in iter: newer
        invariant
            iter.seq() == all,
            result.deep_view() == overlaid_all(base, views(all).take(iter.index() as int)),
    {
        let ghost done = iter.index() as int;
        proof {
            assert(views(all).take(done + 1).drop_last() =~= views(all).take(done));
            assert(views(all).take(done + 1).last() == attribution.deep_view());
        }
        result = overlay(result, attribution);
    }
    proof {
        assert(views(all).take(all.len() as int) =~= views(all));
        assert(views(all) =~= newer.deep_view());
    }
    result
}

/// Every attribution is about at least one line.
pub open spec fn all_valid(attributions: Seq<LineAttributionView>) -> bool {
    forall|i: int|
        0 <= i < attributions.len() ==> (#[trigger] attributions[i]).start_line
            <= attributions[i].end_line
}

/// How many attributions are about `line`.
pub open spec fn times_covered(attributions: Seq<LineAttributionView>, line: int) -> nat
    decreases attributions.len(),
{
    if attributions.len() == 0 {
        0
    } else {
        times_covered(attributions.drop_last(), line) + if attributions.last().covers(line) {
            1nat
        } else {
            0nat
        }
    }
}

pub proof fn lemma_credits_push(
    list: Seq<LineAttributionView>,
    item: LineAttributionView,
    line: int,
    author: Seq<char>,
    overrode: Option<Seq<char>>,
)
    ensures
        credits(list.push(item), line, author, overrode) <==> credits(list, line, author, overrode)
            || credited_by(item, line, author, overrode),
{
    let longer = list.push(item);
    if credits(list, line, author, overrode) {
        let i = choose|i: int|
            0 <= i < list.len() && credited_by(#[trigger] list[i], line, author, overrode);
        assert(longer[i] == list[i]);
    }
    if credited_by(item, line, author, overrode) {
        assert(longer[list.len() as int] == item);
    }
    if credits(longer, line, author, overrode) {
        let i = choose|i: int|
            0 <= i < longer.len() && credited_by(#[trigger] longer[i], line, author, overrode);
        if i < list.len() {
            assert(list[i] == longer[i]);
        }
    }
}

pub proof fn lemma_credits_add(
    left: Seq<LineAttributionView>,
    right: Seq<LineAttributionView>,
    line: int,
    author: Seq<char>,
    overrode: Option<Seq<char>>,
)
    ensures
        credits(left + right, line, author, overrode) <==> credits(left, line, author, overrode)
            || credits(right, line, author, overrode),
    decreases right.len(),
{
    if right.len() == 0 {
        assert(left + right =~= left);
    } else {
        lemma_credits_add(left, right.drop_last(), line, author, overrode);
        lemma_credits_push(left + right.drop_last(), right.last(), line, author, overrode);
        lemma_credits_push(right.drop_last(), right.last(), line, author, overrode);
        assert((left + right.drop_last()).push(right.last()) =~= left + right);
        assert(right.drop_last().push(right.last()) =~= right);
    }
}

proof fn lemma_times_push(list: Seq<LineAttributionView>, item: LineAttributionView, line: int)
    ensures
        times_covered(list.push(item), line) == times_covered(list, line) + if item.covers(line) {
            1nat
        } else {
            0nat
        },
{
    assert(list.push(item).drop_last() =~= list);
}

proof fn lemma_times_add(
    left: Seq<LineAttributionView>,
    right: Seq<LineAttributionView>,
    line: int,
)
    ensures
        times_covered(left + right, line) == times_covered(left, line) + times_covered(right, line),
    decreases right.len(),
{
    if right.len() == 0 {
        assert(left + right =~= left);
    } else {
        lemma_times_add(left, right.drop_last(), line);
        assert((left + right).drop_last() =~= left + right.drop_last());
    }
}

/// What stays beside `newer` says of the other lines what `existing` said, and nothing of those
/// of `newer`.
proof fn lemma_beside(
    existing: Seq<LineAttributionView>,
    newer: LineAttributionView,
    line: int,
    author: Seq<char>,
    overrode: Option<Seq<char>>,
)
    requires
        newer.start_line <= newer.end_line,
    ensures
        credits(kept_beside(existing, newer), line, author, overrode) || credits(
            trimmed_beside(existing, newer),
            line,
            author,
            overrode,
        ) <==> !newer.covers(line) && credits(existing, line, author, overrode),
        times_covered(kept_beside(existing, newer), line) + times_covered(
            trimmed_beside(existing, newer),
            line,
        ) == if newer.covers(line) {
            0nat
        } else {
            times_covered(existing, line)
        },
    decreases existing.len(),
{
    if existing.len() > 0 {
        let rest = existing.drop_last();
        let old = existing.last();
        let fragments = old.fragments_beside(newer);
        lemma_beside(rest, newer, line, author, overrode);
        lemma_credits_push(rest, old, line, author, overrode);
        assert(rest.push(old) =~= existing);
        lemma_credits_push(kept_beside(rest, newer), old, line, author, overrode);
        lemma_times_push(kept_beside(rest, newer), old, line);
        lemma_credits_add(trimmed_beside(rest, newer), fragments, line, author, overrode);
        lemma_times_add(trimmed_beside(rest, newer), fragments, line);
        lemma_fragments(old, newer, line, author, overrode);
    }
}

/// The fragments of an attribution say of the lines outside `newer` what the attribution said.
proof fn lemma_fragments(
    old: LineAttributionView,
    newer: LineAttributionView,
    line: int,
    author: Seq<char>,
    overrode: Option<Seq<char>>,
)
    requires
        newer.start_line <= newer.end_line,
    ensures
        credits(old.fragments_beside(newer), line, author, overrode) <==> !old.untouched_by(newer)
            && !newer.covers(line) && credited_by(old, line, author, overrode),
        times_covered(old.fragments_beside(newer), line) == if !old.untouched_by(newer)
            && !newer.covers(line) && old.covers(line) {
            1nat
        } else {
            0nat
        },
{
    let head = old.with_lines(old.start_line, newer.start_line - 1);
    let tail = old.with_lines(newer.end_line + 1, old.end_line);
    let empty = Seq::<LineAttributionView>::empty();
    lemma_credits_push(empty, head, line, author, overrode);
    lemma_credits_push(empty, tail, line, author, overrode);
    lemma_credits_push(seq![head], tail, line, author, overrode);
    lemma_times_push(empty, head, line);
    lemma_times_push(empty, tail, line);
    lemma_times_push(seq![head], tail, line);
    assert(empty.push(head) =~= seq![head]);
    assert(empty.push(tail) =~= seq![tail]);
    assert(seq![head].push(tail) =~= seq![head] + seq![tail]);
    assert(empty + empty =~= empty);
    assert(seq![head] + empty =~= seq![head]);
    assert(empty + seq![tail] =~= seq![tail]);
}

/// Later attributions override earlier ones: the lines of `newer` go to its author alone, and all
/// other lines stay with those who had them.
pub proof fn law_newer_overrides(
    existing: Seq<LineAttributionView>,
    newer: LineAttributionView,
    line: int,
    author: Seq<char>,
    overrode: Option<Seq<char>>,
)
    requires
        newer.start_line <= newer.end_line,
    ensures
        credits(overlaid(existing, newer), line, author, overrode) <==> if newer.covers(line) {
            newer.author_id == author && newer.overrode == overrode
        } else {
            credits(existing, line, author, overrode)
        },
{
    let beside = kept_beside(existing, newer) + trimmed_beside(existing, newer);
    lemma_beside(existing, newer, line, author, overrode);
    lemma_credits_add(
        kept_beside(existing, newer),
        trimmed_beside(existing, newer),
        line,
        author,
        overrode,
    );
    lemma_credits_push(beside, newer, line, author, overrode);
    assert(beside.push(newer) =~= overlaid(existing, newer));
}

/// After `newer` is laid over `existing`, its lines are attributed once, and each other line as
/// often as before. So where no line was attributed twice, none is afterwards.
pub proof fn law_overlay_attributes_once(
    existing: Seq<LineAttributionView>,
    newer: LineAttributionView,
    line: int,
)
    requires
        newer.start_line <= newer.end_line,
    ensures
        times_covered(overlaid(existing, newer), line) == if newer.covers(line) {
            1nat
        } else {
            times_covered(existing, line)
        },
{
    let beside = kept_beside(existing, newer) + trimmed_beside(existing, newer);
    lemma_beside(existing, newer, line, Seq::empty(), None);
    lemma_times_add(kept_beside(existing, newer), trimmed_beside(existing, newer), line);
    lemma_times_push(beside, newer, line);
    assert(beside.push(newer) =~= overlaid(existing, newer));
}

/// No line is attributed twice.
pub open spec fn each_line_once(attributions: Seq<LineAttributionView>) -> bool {
    forall|line: int| #[trigger] times_covered(attributions, line) <= 1
}

/// A list of valid attributions stays one without its last.
proof fn lemma_valid_drop_last(list: Seq<LineAttributionView>)
    requires
        list.len() > 0,
        all_valid(list),
    ensures
        all_valid(list.drop_last()),
        list.last().start_line <= list.last().end_line,
{
    let rest = list.drop_last();
    assert(list[list.len() - 1] == list.last());
    assert forall|i: int| 0 <= i < rest.len() implies (#[trigger] rest[i]).start_line
        <= rest[i].end_line by {
        assert(rest[i] == list[i]);
    }
}

/// However many attributions are laid over each other, no line is attributed twice.
pub proof fn law_overlays_attribute_once(
    existing: Seq<LineAttributionView>,
    newer: Seq<LineAttributionView>,
)
    requires
        each_line_once(existing),
        all_valid(newer),
    ensures
        each_line_once(overlaid_all(existing, newer)),
    decreases newer.len(),
{
    if newer.len() > 0 {
        let rest = newer.drop_last();
        let before = overlaid_all(existing, rest);
        lemma_valid_drop_last(newer);
        law_overlays_attribute_once(existing, rest);
        assert forall|line: int| #[trigger]
            times_covered(overlaid_all(existing, newer), line) <= 1 by {
            law_overlay_attributes_once(before, newer.last(), line);
            assert(times_covered(before, line) <= 1);
        }
    }
}

/// The last of the attributions that is about `line`.
pub open spec fn last_about(attributions: Seq<LineAttributionView>, line: int) -> Option<
    LineAttributionView,
>
    decreases attributions.len(),
{
    if attributions.len() == 0 {
        None
    } else if attributions.last().covers(line) {
        Some(attributions.last())
    } else {
        last_about(attributions.drop_last(), line)
    }
}

/// Where several attributions are laid over `existing` one after the other, the last of them that
/// is about a line decides it, and a line that none is about stays with those who had it.
pub proof fn law_last_newer_decides(
    existing: Seq<LineAttributionView>,
    newer: Seq<LineAttributionView>,
    line: int,
    author: Seq<char>,
    overrode: Option<Seq<char>>,
)
    requires
        all_valid(newer),
    ensures
        credits(overlaid_all(existing, newer), line, author, overrode) <==> match last_about(
            newer,
            line,
        ) {
            Some(last) => last.author_id == author && last.overrode == overrode,
            None => credits(existing, line, author, overrode),
        },
    decreases newer.len(),
{
    if newer.len() > 0 {
        let rest = newer.drop_last();
        lemma_valid_drop_last(newer);
        law_last_newer_decides(existing, rest, line, author, overrode);
        law_newer_overrides(
            overlaid_all(existing, rest),
            newer.last(),
            line,
            author,
            overrode,
        );
    }
}

/// Laying attributions over `existing` in two runs is laying them over it in one.
pub proof fn lemma_overlaid_add(
    existing: Seq<LineAttributionView>,
    first: Seq<LineAttributionView>,
    second: Seq<LineAttributionView>,
)
    ensures
        overlaid_all(existing, first + second) == overlaid_all(
            overlaid_all(existing, first),
            second,
        ),
    decreases second.len(),
{
    if second.len() == 0 {
        assert(first + second =~= first);
    } else {
        lemma_overlaid_add(existing, first, second.drop_last());
        assert((first + second).drop_last() =~= first + second.drop_last());
    }
}

/// Laying attributions over each other makes none that is about no line.
pub proof fn law_overlay_stays_valid(
    existing: Seq<LineAttributionView>,
    newer: LineAttributionView,
)
    requires
        all_valid(existing),
        newer.start_line <= newer.end_line,
    ensures
        all_valid(overlaid(existing, newer)),
{
    lemma_beside_valid(existing, newer);
}

/// However many attributions are laid over each other, none that is about no line is made.
pub proof fn law_overlays_stay_valid(
    existing: Seq<LineAttributionView>,
    newer: Seq<LineAttributionView>,
)
    requires
        all_valid(existing),
        all_valid(newer),
    ensures
        all_valid(overlaid_all(existing, newer)),
    decreases newer.len(),
{
    if newer.len() > 0 {
        lemma_valid_drop_last(newer);
        law_overlays_stay_valid(existing, newer.drop_last());
        law_overlay_stays_valid(overlaid_all(existing, newer.drop_last()), newer.last());
    }
}

proof fn lemma_beside_valid(existing: Seq<LineAttributionView>, newer: LineAttributionView)
    requires
        all_valid(existing),
    ensures
        all_valid(kept_beside(existing, newer)),
        all_valid(trimmed_beside(existing, newer)),
    decreases existing.len(),
{
    if existing.len() > 0 {
        let rest = existing.drop_last();
        assert(forall|i: int| 0 <= i < rest.len() ==> rest[i] == existing[i]);
        assert(existing[existing.len() - 1] == existing.last());
        lemma_beside_valid(rest, newer);
    }
}

/// Where `newer` lies strictly inside an attribution, both the head before it and the tail behind
/// it survive.
pub proof fn law_enclosed_keeps_head_and_tail(
    existing: Seq<LineAttributionView>,
    newer: LineAttributionView,
    at: int,
)
    requires
        0 <= at < existing.len(),
        existing[at].start_line < newer.start_line <= newer.end_line < existing[at].end_line,
    ensures
        overlaid(existing, newer).contains(
            existing[at].with_lines(existing[at].start_line, newer.start_line - 1),
        ),
        overlaid(existing, newer).contains(
            existing[at].with_lines(newer.end_line + 1, existing[at].end_line),
        ),
{
    let head = existing[at].with_lines(existing[at].start_line, newer.start_line - 1);
    let tail = existing[at].with_lines(newer.end_line + 1, existing[at].end_line);
    lemma_trimmed_contains(existing, newer, at);
    let kept = kept_beside(existing, newer);
    let trimmed = trimmed_beside(existing, newer);
    let i = trimmed.index_of(head);
    let j = trimmed.index_of(tail);
    assert(overlaid(existing, newer)[kept.len() + i] == head);
    assert(overlaid(existing, newer)[kept.len() + j] == tail);
}

proof fn lemma_trimmed_contains(
    existing: Seq<LineAttributionView>,
    newer: LineAttributionView,
    at: int,
)
    requires
        0 <= at < existing.len(),
        existing[at].start_line < newer.start_line <= newer.end_line < existing[at].end_line,
    ensures
        trimmed_beside(existing, newer).contains(
            existing[at].with_lines(existing[at].start_line, newer.start_line - 1),
        ),
        trimmed_beside(existing, newer).contains(
            existing[at].with_lines(newer.end_line + 1, existing[at].end_line),
        ),
    decreases existing.len(),
{
    let head = existing[at].with_lines(existing[at].start_line, newer.start_line - 1);
    let tail = existing[at].with_lines(newer.end_line + 1, existing[at].end_line);
    let rest = existing.drop_last();
    let trimmed = trimmed_beside(existing, newer);
    let before = trimmed_beside(rest, newer);
    if at == existing.len() - 1 {
        assert(trimmed[before.len() as int] == head);
        assert(trimmed[before.len() as int + 1] == tail);
    } else {
        assert(rest[at] == existing[at]);
        lemma_trimmed_contains(rest, newer, at);
        assert(trimmed[before.index_of(head)] == head);
        assert(trimmed[before.index_of(tail)] == tail);
    }
}

} // verus!
