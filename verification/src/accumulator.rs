//! The per-pass merge buffer: collects the note stacks every channel
//! produced in one generation pass, keyed by their exact start, and flattens
//! them into aligned, padded composite events.
//!
//! Padding every channel to its own maximum width for the pass - rather than
//! concatenating variable-width stacks - keeps a given note's position in
//! the flattened stack constant across passes, which matters because the
//! downstream voice assignment is positional.

use vstd::prelude::*;

use crate::fraction::{
    frac_eq, frac_lt, frac_min, frac_wf, lemma_frac_lt_trans,
    lemma_frac_trichotomy, Fraction,
};
use crate::note::{spec_new_note, Event, EmitterEvent, EmitterEventModel, Note, NoteEvent};

verus! {

/// Everything recorded for one instant: its exact start, the shortest length
/// any channel submitted for it, and per channel the note stack it produced,
/// if it produced one.
pub struct TimedSlot {
    pub start: Fraction,
    pub length: Fraction,
    pub channels: Vec<Option<Vec<Option<NoteEvent>>>>,
}

/// The per-pass accumulator: the instants seen so far, ordered by start, and
/// per channel the widest note stack it produced anywhere in the pass.
pub struct CycleNoteEvents {
    pub events: Vec<TimedSlot>,
    pub event_counts: Vec<usize>,
}

/// The mathematical shape of a [`TimedSlot`].
pub ghost struct SlotModel {
    pub start: Fraction,
    pub length: Fraction,
    pub channels: Seq<Option<Seq<Option<NoteEvent>>>>,
}

/// The mathematical shape of the accumulator.
pub ghost struct AccModel {
    pub slots: Seq<SlotModel>,
    pub counts: Seq<usize>,
}

/// The views of the stored channel stacks, in channel order.
pub open spec fn channels_view(v: Seq<Option<Vec<Option<NoteEvent>>>>) -> Seq<
    Option<Seq<Option<NoteEvent>>>,
> {
    Seq::new(
        v.len(),
        |i: int|
            match v[i] {
                Some(st) => Some(st@),
                None => None,
            },
    )
}

impl View for TimedSlot {
    type V = SlotModel;

    open spec fn view(&self) -> SlotModel {
        SlotModel { start: self.start, length: self.length, channels: channels_view(self.channels@) }
    }
}

impl View for CycleNoteEvents {
    type V = AccModel;

    open spec fn view(&self) -> AccModel {
        AccModel {
            slots: Seq::new(self.events@.len(), |i: int| self.events@[i]@),
            counts: self.event_counts@,
        }
    }
}

/// The accumulator invariant: all spans well formed, instants strictly
/// ascending by start (so at most one entry per distinct start), no slot
/// wider than the channel count, and no stored stack wider than its
/// channel's recorded maximum.
pub open spec fn acc_wf(m: AccModel) -> bool {
    &&& forall|i: int|
        0 <= i < m.slots.len() ==> frac_wf(#[trigger] m.slots[i].start) && frac_wf(
            m.slots[i].length,
        )
    &&& forall|i: int, j: int|
        0 <= i < j < m.slots.len() ==> frac_lt(
            #[trigger] m.slots[i].start,
            #[trigger] m.slots[j].start,
        )
    &&& forall|i: int|
        0 <= i < m.slots.len() ==> (#[trigger] m.slots[i].channels).len() <= m.counts.len()
    &&& forall|i: int, ch: int|
        0 <= i < m.slots.len() && 0 <= ch < m.slots[i].channels.len() && m.slots[i].channels[ch]
            is Some ==> (#[trigger] m.slots[i].channels[ch])->Some_0.len() <= m.counts[ch]
}

/// The channel maxima grown to cover `ch`, with the entry for `ch` raised to
/// at least `w`.
pub open spec fn spec_grow_counts(counts: Seq<usize>, ch: int, w: nat) -> Seq<usize> {
    let extended = if counts.len() >= ch + 1 {
        counts
    } else {
        counts + Seq::new((ch + 1 - counts.len()) as nat, |i: int| 0usize)
    };
    extended.update(
        ch,
        if extended[ch] >= w {
            extended[ch]
        } else {
            w as usize
        },
    )
}

/// The channel slots grown to cover `ch`, with the entry for `ch` replaced
/// by the given stack.
pub open spec fn spec_grow_channels(
    chs: Seq<Option<Seq<Option<NoteEvent>>>>,
    ch: int,
    stack: Seq<Option<NoteEvent>>,
) -> Seq<Option<Seq<Option<NoteEvent>>>> {
    let extended = if chs.len() >= ch + 1 {
        chs
    } else {
        chs + Seq::new((ch + 1 - chs.len()) as nat, |i: int| None)
    };
    extended.update(ch, Some(stack))
}

/// Where a new start belongs in the ordered slots: the first position whose
/// start is not below it.
pub open spec fn spec_insert_pos(slots: Seq<SlotModel>, start: Fraction) -> int
    decreases slots.len(),
{
    if slots.len() == 0 {
        0
    } else if !frac_lt(slots[0].start, start) {
        0
    } else {
        1 + spec_insert_pos(slots.skip(1), start)
    }
}

/// What adding one channel contribution does to the accumulator.
///
/// The channel's recorded maximum grows to at least the stack's width.  If
/// the start is already present, its slot keeps the shorter of the stored
/// and the submitted length - shorter wins, preventing overlap - and the
/// channel's entry is overwritten, never appended.  Otherwise a new slot is
/// inserted at the position that keeps starts ascending.
pub open spec fn spec_add(
    m: AccModel,
    ch: int,
    start: Fraction,
    length: Fraction,
    stack: Seq<Option<NoteEvent>>,
) -> AccModel {
    let counts = spec_grow_counts(m.counts, ch, stack.len());
    let pos = spec_insert_pos(m.slots, start);
    let slots = if pos < m.slots.len() && frac_eq(m.slots[pos].start, start) {
        m.slots.update(
            pos,
            SlotModel {
                start: m.slots[pos].start,
                length: frac_min(m.slots[pos].length, length),
                channels: spec_grow_channels(m.slots[pos].channels, ch, stack),
            },
        )
    } else {
        m.slots.insert(
            pos,
            SlotModel { start, length, channels: spec_grow_channels(Seq::empty(), ch, stack) },
        )
    };
    AccModel { slots, counts }
}

/// The insert position is the boundary between the starts below the new one
/// and the rest.
proof fn lemma_insert_pos_props(slots: Seq<SlotModel>, start: Fraction)
    ensures
        0 <= spec_insert_pos(slots, start) <= slots.len(),
        forall|j: int|
            0 <= j < spec_insert_pos(slots, start) ==> frac_lt(
                (#[trigger] slots[j]).start,
                start,
            ),
        spec_insert_pos(slots, start) < slots.len() ==> !frac_lt(
            slots[spec_insert_pos(slots, start)].start,
            start,
        ),
    decreases slots.len(),
{
    if slots.len() == 0 {
    } else if !frac_lt(slots[0].start, start) {
    } else {
        lemma_insert_pos_props(slots.skip(1), start);
        let pos = spec_insert_pos(slots, start);
        assert forall|j: int| 0 <= j < pos implies frac_lt((#[trigger] slots[j]).start, start) by {
            if j > 0 {
                assert(slots.skip(1)[j - 1] == slots[j]);
                assert(frac_lt(slots.skip(1)[j - 1].start, start));
            }
        }
        if pos < slots.len() {
            assert(slots.skip(1)[pos - 1] == slots[pos]);
        }
    }
}

/// A search that stopped at the first start not below the new one found the
/// insert position.
proof fn lemma_insert_pos_of_scan(slots: Seq<SlotModel>, start: Fraction, p: int)
    requires
        0 <= p <= slots.len(),
        forall|j: int| 0 <= j < p ==> frac_lt((#[trigger] slots[j]).start, start),
        p < slots.len() ==> !frac_lt(slots[p].start, start),
    ensures
        spec_insert_pos(slots, start) == p,
    decreases p,
{
    if p == 0 {
    } else {
        assert(forall|j: int| 0 <= j < slots.len() - 1 ==> slots.skip(1)[j] == slots[j + 1]);
        lemma_insert_pos_of_scan(slots.skip(1), start, p - 1);
    }
}

/// Adding a contribution preserves the accumulator invariant.
pub proof fn lemma_add_preserves_wf(
    m: AccModel,
    ch: int,
    start: Fraction,
    length: Fraction,
    stack: Seq<Option<NoteEvent>>,
)
    requires
        acc_wf(m),
        frac_wf(start),
        frac_wf(length),
        ch >= 0,
        stack.len() <= usize::MAX,
    ensures
        acc_wf(spec_add(m, ch, start, length, stack)),
{
    let r = spec_add(m, ch, start, length, stack);
    let pos = spec_insert_pos(m.slots, start);
    lemma_insert_pos_props(m.slots, start);
    assert(r.counts.len() >= m.counts.len());
    assert(forall|c: int| 0 <= c < m.counts.len() && c != ch ==> r.counts[c] == m.counts[c]);
    assert(r.counts.len() == if m.counts.len() >= ch + 1 {
        m.counts.len() as int
    } else {
        ch + 1
    });
    assert(r.counts[ch] >= stack.len());
    if pos < m.slots.len() && frac_eq(m.slots[pos].start, start) {
        let ns = r.slots[pos];
        assert(ns.channels.len() <= r.counts.len());
        assert(forall|c: int|
            0 <= c < ns.channels.len() && c != ch && c < m.slots[pos].channels.len()
                ==> #[trigger] ns.channels[c] == m.slots[pos].channels[c]);
        assert(forall|c: int|
            0 <= c < ns.channels.len() && ns.channels[c] is Some ==> (
            #[trigger] ns.channels[c])->Some_0.len() <= r.counts[c]);
        assert forall|i: int, j: int| 0 <= i < j < r.slots.len() implies frac_lt(
            #[trigger] r.slots[i].start,
            #[trigger] r.slots[j].start,
        ) by {
            assert(r.slots[i].start == m.slots[i].start);
            assert(r.slots[j].start == m.slots[j].start);
        }
        assert forall|i: int, c: int|
            0 <= i < r.slots.len() && 0 <= c < r.slots[i].channels.len() && r.slots[i].channels[c]
                is Some implies (#[trigger] r.slots[i].channels[c])->Some_0.len()
            <= r.counts[c] by {
            if i != pos {
                assert(r.slots[i] == m.slots[i]);
            }
        }
    } else {
        if pos < m.slots.len() {
            lemma_frac_trichotomy(m.slots[pos].start, start);
        }
        let ns = r.slots[pos];
        assert(ns.channels.len() == ch + 1 <= r.counts.len());
        assert(forall|c: int|
            0 <= c < ns.channels.len() && ns.channels[c] is Some ==> (
            #[trigger] ns.channels[c])->Some_0.len() <= r.counts[c]);
        assert forall|i: int, j: int| 0 <= i < j < r.slots.len() implies frac_lt(
            #[trigger] r.slots[i].start,
            #[trigger] r.slots[j].start,
        ) by {
            if i < pos && j == pos {
            } else if i == pos && j > pos {
                assert(r.slots[j] == m.slots[j - 1]);
                if pos < m.slots.len() && j - 1 > pos {
                    assert(frac_lt(m.slots[pos].start, m.slots[j - 1].start));
                    lemma_frac_trichotomy(start, m.slots[pos].start);
                    lemma_frac_lt_trans(start, m.slots[pos].start, m.slots[j - 1].start);
                } else {
                    lemma_frac_trichotomy(start, m.slots[j - 1].start);
                }
            } else if i < pos && j > pos {
                assert(r.slots[i] == m.slots[i]);
                assert(r.slots[j] == m.slots[j - 1]);
            } else if j < pos {
            } else {
            }
        }
    }
}

/// In a well-formed accumulator no two slots share a start: at most one
/// entry per distinct start.
pub proof fn lemma_accumulator_starts_unique(m: AccModel, i: int, j: int)
    requires
        acc_wf(m),
        0 <= i < m.slots.len(),
        0 <= j < m.slots.len(),
        i != j,
    ensures
        !frac_eq(m.slots[i].start, m.slots[j].start),
{
    if i < j {
        lemma_frac_trichotomy(m.slots[i].start, m.slots[j].start);
    } else {
        lemma_frac_trichotomy(m.slots[j].start, m.slots[i].start);
        lemma_frac_trichotomy(m.slots[i].start, m.slots[j].start);
    }
}

/// A second contribution at a present start overwrites the channel's entry
/// in place: no slot is added, the stored length becomes the minimum of the
/// stored and the submitted one, every other slot and every other channel's
/// entry stay as they were.
pub proof fn lemma_add_overwrites(
    m: AccModel,
    pos: int,
    ch: int,
    length: Fraction,
    stack: Seq<Option<NoteEvent>>,
)
    requires
        acc_wf(m),
        0 <= pos < m.slots.len(),
        ch >= 0,
    ensures
        ({
            let r = spec_add(m, ch, m.slots[pos].start, length, stack);
            &&& r.slots.len() == m.slots.len()
            &&& r.slots[pos].start == m.slots[pos].start
            &&& r.slots[pos].length == frac_min(m.slots[pos].length, length)
            &&& r.slots[pos].channels[ch] == Some(stack)
            &&& forall|k: int| 0 <= k < m.slots.len() && k != pos ==> r.slots[k] == m.slots[k]
            &&& forall|c: int|
                0 <= c < m.slots[pos].channels.len() && c != ch ==> r.slots[pos].channels[c]
                    == #[trigger] m.slots[pos].channels[c]
        }),
{
    let start = m.slots[pos].start;
    lemma_insert_pos_props(m.slots, start);
    let p = spec_insert_pos(m.slots, start);
    if p < pos {
        assert(frac_lt(m.slots[p].start, m.slots[pos].start));
        assert(!frac_lt(m.slots[p].start, start));
        assert(false);
    }
    if p > pos {
        assert(frac_lt(m.slots[pos].start, start));
        lemma_frac_trichotomy(start, start);
        assert(false);
    }
    lemma_frac_trichotomy(start, start);
}

/// One channel's contribution to a flattened stack: its stored stack padded
/// on the right with explicit offs to the channel's maximum width, or - when
/// the channel produced nothing at this instant but fired somewhere in the
/// pass - a run of `None` of that width, keeping its voice slots aligned.
pub open spec fn spec_padded_channel(
    channels: Seq<Option<Seq<Option<NoteEvent>>>>,
    counts: Seq<usize>,
    ch: int,
) -> Seq<Option<NoteEvent>> {
    if 0 <= ch < channels.len() && channels[ch] is Some {
        let st = channels[ch]->Some_0;
        st + Seq::new((counts[ch] - st.len()) as nat, |i: int| spec_new_note(Note::Off))
    } else {
        Seq::new(counts[ch] as nat, |i: int| None)
    }
}

/// The flattened stack of one instant, over the channels below `k`: every
/// channel's padded contribution, concatenated in channel order.
pub open spec fn spec_merged_stack(
    channels: Seq<Option<Seq<Option<NoteEvent>>>>,
    counts: Seq<usize>,
    k: int,
) -> Seq<Option<NoteEvent>>
    decreases k,
{
    if k <= 0 {
        Seq::empty()
    } else {
        spec_merged_stack(channels, counts, k - 1) + spec_padded_channel(channels, counts, k - 1)
    }
}

/// What flattening returns: one composite event per stored instant, in
/// ascending start order, each carrying the instant's merged stack and its
/// recorded start and length.
pub open spec fn spec_flatten(m: AccModel) -> Seq<EmitterEventModel> {
    Seq::new(
        m.slots.len(),
        |i: int|
            EmitterEventModel {
                stack: spec_merged_stack(m.slots[i].channels, m.counts, m.counts.len() as int),
                start: m.slots[i].start,
                length: m.slots[i].length,
            },
    )
}

/// The sum of the channel maxima below `k`.
pub open spec fn spec_sum_counts(counts: Seq<usize>, k: int) -> int
    decreases k,
{
    if k <= 0 {
        0
    } else {
        spec_sum_counts(counts, k - 1) + counts[k - 1]
    }
}

/// A merged stack over the channels below `k` is exactly as wide as the sum
/// of their maxima.
pub proof fn lemma_merged_stack_len(
    channels: Seq<Option<Seq<Option<NoteEvent>>>>,
    counts: Seq<usize>,
    k: int,
)
    requires
        k <= counts.len(),
        forall|ch: int|
            0 <= ch < channels.len() && channels[ch] is Some ==> (
            #[trigger] channels[ch])->Some_0.len() <= counts[ch],
    ensures
        spec_merged_stack(channels, counts, k).len() == if k <= 0 {
            0
        } else {
            spec_sum_counts(counts, k)
        },
    decreases k,
{
    if k <= 0 {
    } else {
        lemma_merged_stack_len(channels, counts, k - 1);
        let p = spec_padded_channel(channels, counts, k - 1);
        if 0 <= k - 1 && k - 1 < channels.len() && channels[k - 1] is Some {
            assert(channels[k - 1]->Some_0.len() <= counts[k - 1]);
            assert(p.len() == counts[k - 1]);
        } else {
            assert(p.len() == counts[k - 1]);
        }
        assert(spec_merged_stack(channels, counts, k) == spec_merged_stack(channels, counts, k - 1)
            + p);
        assert(spec_merged_stack(channels, counts, k).len() == spec_merged_stack(
            channels,
            counts,
            k - 1,
        ).len() + counts[k - 1]);
        assert(spec_sum_counts(counts, k) == spec_sum_counts(counts, k - 1) + counts[k - 1]);
        if k == 1 {
            assert(spec_sum_counts(counts, 0) == 0);
        }
    }
}

/// Every flattened composite event of one pass has exactly the same width:
/// the sum of all channels' maxima for that pass.
pub proof fn lemma_flattened_width(m: AccModel, i: int)
    requires
        acc_wf(m),
        0 <= i < m.slots.len(),
    ensures
        spec_flatten(m)[i].stack.len() == spec_sum_counts(m.counts, m.counts.len() as int),
{
    lemma_merged_stack_len(m.slots[i].channels, m.counts, m.counts.len() as int);
    if m.counts.len() == 0 {
    }
}

/// Below the channels already merged, merging more channels only appends.
proof fn lemma_merged_stack_prefix(
    channels: Seq<Option<Seq<Option<NoteEvent>>>>,
    counts: Seq<usize>,
    ch: int,
    k: int,
)
    requires
        0 <= ch < k <= counts.len(),
        forall|c: int|
            0 <= c < channels.len() && channels[c] is Some ==> (
            #[trigger] channels[c])->Some_0.len() <= counts[c],
    ensures
        spec_merged_stack(channels, counts, k).subrange(
            spec_sum_counts(counts, ch),
            spec_sum_counts(counts, ch + 1),
        ) =~= spec_padded_channel(channels, counts, ch),
    decreases k,
{
    lemma_merged_stack_len(channels, counts, ch);
    lemma_merged_stack_len(channels, counts, ch + 1);
    lemma_merged_stack_len(channels, counts, k);
    if k == ch + 1 {
        assert(spec_padded_channel(channels, counts, ch).len() == counts[ch]);
        assert(spec_merged_stack(channels, counts, k).subrange(
            spec_sum_counts(counts, ch),
            spec_sum_counts(counts, ch + 1),
        ) =~= spec_padded_channel(channels, counts, ch));
    } else {
        lemma_merged_stack_prefix(channels, counts, ch, k - 1);
        lemma_merged_stack_len(channels, counts, k - 1);
        assert(spec_padded_channel(channels, counts, k - 1).len() == counts[k - 1]);
        assert(spec_sum_counts(counts, ch + 1) <= spec_sum_counts(counts, k - 1)) by {
            lemma_sum_counts_monotone(counts, ch + 1, k - 1);
        }
        assert(spec_merged_stack(channels, counts, k).subrange(
            spec_sum_counts(counts, ch),
            spec_sum_counts(counts, ch + 1),
        ) =~= spec_merged_stack(channels, counts, k - 1).subrange(
            spec_sum_counts(counts, ch),
            spec_sum_counts(counts, ch + 1),
        ));
    }
}

/// The running sum of channel maxima never decreases.
proof fn lemma_sum_counts_monotone(counts: Seq<usize>, a: int, b: int)
    requires
        0 <= a <= b <= counts.len(),
    ensures
        spec_sum_counts(counts, a) <= spec_sum_counts(counts, b),
    decreases b - a,
{
    if a < b {
        lemma_sum_counts_monotone(counts, a, b - 1);
    }
}

/// Replaces one element of a vector.
fn vec_set<T>(v: &mut Vec<T>, i: usize, x: T)
    requires
        i < old(v)@.len(),
    ensures
        final(v)@ == old(v)@.update(i as int, x),
{
    v.remove(i);
    v.insert(i, x);
    proof {
        assert(final(v)@ =~= old(v)@.update(i as int, x));
    }
}

impl CycleNoteEvents {
    /// Creates the empty accumulator a pass starts from.
    pub fn new() -> (r: CycleNoteEvents)
        ensures
            r@.slots.len() == 0,
            r@.counts.len() == 0,
            acc_wf(r@),
    {
        CycleNoteEvents { events: Vec::new(), event_counts: Vec::new() }
    }

    /// Adds one channel's note stack for one instant of the pass.
    ///
    /// Grows the channel's recorded maximum to at least the stack's width,
    /// then stores the stack under the instant's start: into the existing
    /// slot when the start is already present - overwriting the channel's
    /// entry and keeping the shorter length - or into a new slot at the
    /// position that keeps starts ascending.
    pub fn add(
        &mut self,
        channel: usize,
        start: Fraction,
        length: Fraction,
        note_events: Vec<Option<NoteEvent>>,
    )
        requires
            acc_wf(old(self)@),
            frac_wf(start),
            frac_wf(length),
            channel < usize::MAX,
        ensures
            final(self)@ == spec_add(old(self)@, channel as int, start, length, note_events@),
            acc_wf(final(self)@),
    {
        let w = note_events.len();
        proof {
            lemma_add_preserves_wf(old(self)@, channel as int, start, length, note_events@);
        }
        let ghost m = self@;
        // locate the slot for this start by ordered search
        proof {
            assert forall|j: int| 0 <= j < self.events@.len() implies frac_wf(
                (#[trigger] self.events@[j]).start,
            ) by {
                assert(m.slots[j] == self.events@[j]@);
                assert(frac_wf(m.slots[j].start));
            }
        }
        let mut pos: usize = 0;
        while pos < self.events.len() && self.events[pos].start.lt(&start)
            invariant
                self.events@ == old(self).events@,
                self.event_counts@ == old(self).event_counts@,
                m.slots == Seq::new(self.events@.len(), |i: int| self.events@[i]@),
                acc_wf(m),
                frac_wf(start),
                forall|j: int|
                    0 <= j < self.events@.len() ==> frac_wf((#[trigger] self.events@[j]).start),
                pos <= self.events@.len(),
                forall|j: int| 0 <= j < pos ==> frac_lt((#[trigger] m.slots[j]).start, start),
            decreases self.events@.len() - pos,
        {
            assert(m.slots[pos as int].start == self.events@[pos as int].start);
            pos = pos + 1;
        }
        proof {
            if pos < self.events@.len() {
                assert(m.slots[pos as int].start == self.events@[pos as int].start);
            }
            lemma_insert_pos_of_scan(m.slots, start, pos as int);
        }
        let found = pos < self.events.len() && self.events[pos].start.eq_value(&start);
        // grow the per-channel maxima to cover this channel
        let ghost counts0 = self.event_counts@;
        while self.event_counts.len() <= channel
            invariant
                counts0 == m.counts,
                self.events@ == old(self).events@,
                channel < usize::MAX,
                counts0.len() <= self.event_counts@.len(),
                counts0.len() > channel ==> self.event_counts@ == counts0,
                counts0.len() <= channel ==> self.event_counts@.len() <= channel + 1,
                forall|c: int| 0 <= c < counts0.len() ==> self.event_counts@[c] == counts0[c],
                forall|c: int|
                    counts0.len() <= c < self.event_counts@.len() ==> self.event_counts@[c]
                        == 0usize,
            decreases channel + 1 - self.event_counts@.len(),
        {
            self.event_counts.push(0);
        }
        let cur = self.event_counts[channel];
        if cur < w {
            vec_set(&mut self.event_counts, channel, w);
        } else {
            proof {
                assert(self.event_counts@ =~= self.event_counts@.update(
                    channel as int,
                    self.event_counts@[channel as int],
                ));
            }
            vec_set(&mut self.event_counts, channel, cur);
        }
        proof {
            assert(self.event_counts@ =~= spec_grow_counts(
                m.counts,
                channel as int,
                note_events@.len(),
            ));
        }
        if found {
            // overwrite the channel's entry in the existing slot
            let mut slot = self.events.remove(pos);
            proof {
                assert(m.slots[pos as int] == old(self).events@[pos as int]@);
                assert(slot@ == m.slots[pos as int]);
                assert(frac_wf(slot.length));
            }
            let ghost chans0 = channels_view(slot.channels@);
            slot.length = slot.length.min_value(length);
            while slot.channels.len() <= channel
                invariant
                    channel < usize::MAX,
                    0 <= pos < m.slots.len(),
                    slot.start == m.slots[pos as int].start,
                    slot.length == frac_min(m.slots[pos as int].length, length),
                    chans0 == m.slots[pos as int].channels,
                    chans0.len() <= slot.channels@.len(),
                    chans0.len() > channel ==> slot.channels@.len() == chans0.len(),
                    chans0.len() <= channel ==> slot.channels@.len() <= channel + 1,
                    forall|c: int|
                        0 <= c < chans0.len() ==> channels_view(slot.channels@)[c] == chans0[c],
                    forall|c: int|
                        chans0.len() <= c < slot.channels@.len() ==> slot.channels@[c]
                            is None,
                decreases channel + 1 - slot.channels@.len(),
            {
                slot.channels.push(None);
            }
            vec_set(&mut slot.channels, channel, Some(note_events));
            proof {
                assert(channels_view(slot.channels@) =~= spec_grow_channels(
                    chans0,
                    channel as int,
                    note_events@,
                ));
            }
            self.events.insert(pos, slot);
            proof {
                let r = spec_add(m, channel as int, start, length, note_events@);
                assert(self@.slots.len() == r.slots.len());
                assert forall|i: int| 0 <= i < r.slots.len() implies self@.slots[i]
                    == r.slots[i] by {
                    assert(self@.slots[i] == self.events@[i]@);
                    if i != pos {
                        assert(self.events@[i] == old(self).events@[i]);
                        assert(m.slots[i] == old(self).events@[i]@);
                        assert(r.slots[i] == m.slots[i]);
                    } else {
                        assert(self.events@[i]@ == r.slots[i]);
                    }
                }
                assert(self@.slots =~= r.slots);
                assert(self@ == r);
            }
        } else {
            // insert a new slot sized to this channel, other channels empty
            let mut chans: Vec<Option<Vec<Option<NoteEvent>>>> = Vec::new();
            while chans.len() < channel
                invariant
                    chans@.len() <= channel,
                    forall|c: int| 0 <= c < chans@.len() ==> chans@[c] is None,
                decreases channel - chans@.len(),
            {
                chans.push(None);
            }
            chans.push(Some(note_events));
            let slot = TimedSlot { start, length, channels: chans };
            self.events.insert(pos, slot);
            proof {
                assert(channels_view(slot.channels@) =~= spec_grow_channels(
                    Seq::empty(),
                    channel as int,
                    note_events@,
                ));
                let r = spec_add(m, channel as int, start, length, note_events@);
                assert(self@.slots =~= r.slots);
                assert(self@ == r);
            }
        }
    }

    /// Flattens the pass into composite events, one per stored instant, in
    /// ascending start order.
    ///
    /// Every channel that fired somewhere in the pass contributes exactly
    /// its maximum width to every instant: its real stack padded with offs,
    /// or a run of `None` where it stayed silent at that instant.
    pub fn into_event_iter_items(self) -> (r: Vec<EmitterEvent>)
        requires
            acc_wf(self@),
        ensures
            r@.len() == spec_flatten(self@).len(),
            forall|i: int| 0 <= i < r@.len() ==> (#[trigger] r@[i])@ == spec_flatten(self@)[i],
    {
        let ghost m = self@;
        let mut out: Vec<EmitterEvent> = Vec::new();
        let mut i: usize = 0;
        while i < self.events.len()
            invariant
                m == self@,
                acc_wf(m),
                i <= self.events@.len(),
                out@.len() == i as int,
                forall|j: int|
                    0 <= j < i as int ==> (#[trigger] out@[j])@ == spec_flatten(m)[j],
            decreases self.events@.len() - i,
        {
            let slot = &self.events[i];
            assert(m.slots[i as int] == slot@);
            let ghost chans = slot@.channels;
            let mut merged: Vec<Option<NoteEvent>> = Vec::new();
            let mut ch: usize = 0;
            while ch < self.event_counts.len()
                invariant
                    m == self@,
                    acc_wf(m),
                    i < self.events@.len(),
                    slot@ == m.slots[i as int],
                    chans == slot@.channels,
                    ch <= m.counts.len(),
                    merged@ == spec_merged_stack(chans, m.counts, ch as int),
                decreases self.event_counts@.len() - ch,
            {
                let ghost merged0 = merged@;
                let w = self.event_counts[ch];
                let mut have_stack = false;
                if ch < slot.channels.len() {
                    match &slot.channels[ch] {
                        Some(st) => {
                            have_stack = true;
                            assert(chans[ch as int] == Some(st@));
                            assert(st@.len() <= w);
                            let mut j: usize = 0;
                            while j < st.len()
                                invariant
                                    j <= st@.len(),
                                    merged@ == merged0 + st@.take(j as int),
                                decreases st@.len() - j,
                            {
                                let x = st[j];
                                merged.push(x);
                                proof {
                                    assert(merged@ =~= merged0 + st@.take(j as int + 1));
                                }
                                j = j + 1;
                            }
                            proof {
                                assert(st@.take(st@.len() as int) =~= st@);
                            }
                            let mut k = st.len();
                            while k < w
                                invariant
                                    st@.len() <= k <= w,
                                    merged@ == merged0 + st@ + Seq::new(
                                        (k - st@.len()) as nat,
                                        |q: int| spec_new_note(Note::Off),
                                    ),
                                decreases w - k,
                            {
                                merged.push(new_note_off());
                                proof {
                                    assert(merged@ =~= merged0 + st@ + Seq::new(
                                        (k + 1 - st@.len()) as nat,
                                        |q: int| spec_new_note(Note::Off),
                                    ));
                                }
                                k = k + 1;
                            }
                            proof {
                                assert(merged@ =~= merged0 + spec_padded_channel(
                                    chans,
                                    m.counts,
                                    ch as int,
                                ));
                            }
                        },
                        None => {},
                    }
                }
                if !have_stack {
                    assert(!((ch as int) < chans.len() && chans[ch as int] is Some));
                    let mut k: usize = 0;
                    while k < w
                        invariant
                            k <= w,
                            merged@ == merged0 + Seq::new(k as nat, |q: int| None::<NoteEvent>),
                        decreases w - k,
                    {
                        merged.push(None);
                        proof {
                            assert(merged@ =~= merged0 + Seq::new(
                                (k + 1) as nat,
                                |q: int| None::<NoteEvent>,
                            ));
                        }
                        k = k + 1;
                    }
                    proof {
                        assert(Seq::new(w as nat, |q: int| None::<NoteEvent>)
                            =~= spec_padded_channel(chans, m.counts, ch as int));
                        assert(merged@ =~= merged0 + spec_padded_channel(
                            chans,
                            m.counts,
                            ch as int,
                        ));
                    }
                }
                ch = ch + 1;
            }
            let ev = EmitterEvent {
                event: Event::NoteEvents(merged),
                start: self.events[i].start,
                length: self.events[i].length,
            };
            assert(ev@ == spec_flatten(m)[i as int]);
            out.push(ev);
            i = i + 1;
        }
        out
    }
}

/// A filled slot holding the explicit off note with default properties.
fn new_note_off() -> (r: Option<NoteEvent>)
    ensures
        r == spec_new_note(Note::Off),
{
    crate::note::new_note(Note::Off)
}

/// In every flattened composite event, a channel's segment sits at the same
/// offset and is either its real padded stack or entirely `None` -
/// consistently at every instant of the pass.
pub proof fn lemma_channel_segment(m: AccModel, i: int, ch: int)
    requires
        acc_wf(m),
        0 <= i < m.slots.len(),
        0 <= ch < m.counts.len(),
    ensures
        spec_flatten(m)[i].stack.subrange(
            spec_sum_counts(m.counts, ch),
            spec_sum_counts(m.counts, ch + 1),
        ) == spec_padded_channel(m.slots[i].channels, m.counts, ch),
        ch < m.slots[i].channels.len() && m.slots[i].channels[ch] is Some
            ==> spec_padded_channel(m.slots[i].channels, m.counts, ch)
            == m.slots[i].channels[ch]->Some_0 + Seq::new(
            (m.counts[ch] - m.slots[i].channels[ch]->Some_0.len()) as nat,
            |k: int| spec_new_note(Note::Off),
        ),
        !(ch < m.slots[i].channels.len() && m.slots[i].channels[ch] is Some)
            ==> spec_padded_channel(m.slots[i].channels, m.counts, ch) == Seq::new(
            m.counts[ch] as nat,
            |k: int| None::<NoteEvent>,
        ),
{
    lemma_merged_stack_prefix(m.slots[i].channels, m.counts, ch, m.counts.len() as int);
    assert(Seq::new(m.counts[ch] as nat, |k: int| None::<NoteEvent>) =~= Seq::new(
        m.counts[ch] as nat,
        |k: int| None,
    ));
}

} // verus!
