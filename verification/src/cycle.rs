//! The compiled cyclic pattern and its per-pass event generator.
//!
//! A compiled cycle holds, per channel, one step per equal share of the unit
//! interval.  A step is a single event template, or a row of alternatives of
//! which each pass picks one in turn.  A template marked with a chance plays
//! only when a coin derived from the seed and the pass number says so, so
//! that equal seeds give equal progressions.

use vstd::prelude::*;

use crate::fraction::{frac_wf, Fraction};
use crate::value::{
    targets_view, CycleEvent, CycleEventModel, CycleTarget, CycleValue, TargetModel, ValueModel,
};

verus! {

/// One potential event of a step: the raw token it came from, its value and
/// inline targets, and whether it plays only by chance.
pub struct EventTemplate {
    pub string: String,
    pub value: CycleValue,
    pub targets: Vec<CycleTarget>,
    pub chance: bool,
}

/// One step of a channel: a fixed template, or alternatives picked round by
/// round.
pub enum Step {
    Single(EventTemplate),
    Alternates(Vec<EventTemplate>),
}

/// A compiled pattern together with its progression state: the seed its
/// chances draw from and the number of passes consumed so far.
pub struct Cycle {
    pub channels: Vec<Vec<Step>>,
    pub seed: u64,
    pub cursor: u64,
}

/// The mathematical shape of an [`EventTemplate`].
pub ghost struct TemplateModel {
    pub string: Seq<char>,
    pub value: ValueModel,
    pub targets: Seq<TargetModel>,
    pub chance: bool,
}

/// The mathematical shape of a [`Step`].
pub ghost enum StepModel {
    Single(TemplateModel),
    Alternates(Seq<TemplateModel>),
}

/// The mathematical shape of a [`Cycle`].
pub ghost struct CycleModel {
    pub channels: Seq<Seq<StepModel>>,
    pub seed: u64,
    pub cursor: u64,
}

impl View for EventTemplate {
    type V = TemplateModel;

    open spec fn view(&self) -> TemplateModel {
        TemplateModel {
            string: self.string@,
            value: self.value@,
            targets: targets_view(self.targets@),
            chance: self.chance,
        }
    }
}

/// The views of a sequence of templates, in order.
pub open spec fn templates_view(v: Seq<EventTemplate>) -> Seq<TemplateModel> {
    Seq::new(v.len(), |i: int| v[i]@)
}

impl View for Step {
    type V = StepModel;

    open spec fn view(&self) -> StepModel {
        match self {
            Step::Single(t) => StepModel::Single(t@),
            Step::Alternates(ts) => StepModel::Alternates(templates_view(ts@)),
        }
    }
}

/// The views of a channel's steps, in order.
pub open spec fn steps_view(v: Seq<Step>) -> Seq<StepModel> {
    Seq::new(v.len(), |i: int| v[i]@)
}

/// The views of all channels, in channel order.
pub open spec fn channels_model(v: Seq<Vec<Step>>) -> Seq<Seq<StepModel>> {
    Seq::new(v.len(), |i: int| steps_view(v[i]@))
}

impl View for Cycle {
    type V = CycleModel;

    open spec fn view(&self) -> CycleModel {
        CycleModel { channels: channels_model(self.channels@), seed: self.seed, cursor: self.cursor }
    }
}

/// A compiled cycle is well formed when every channel has few enough steps
/// for their spans' denominators, and every alternation offers at least one
/// alternative.
pub open spec fn cycle_wf(c: CycleModel) -> bool {
    &&& forall|ch: int| 0 <= ch < c.channels.len() ==> (#[trigger] c.channels[ch]).len() <= 0x7fff_ffff
    &&& forall|ch: int, i: int|
        0 <= ch < c.channels.len() && 0 <= i < c.channels[ch].len() && c.channels[ch][i]
            is Alternates ==> (#[trigger] c.channels[ch][i])->Alternates_0.len() >= 1
}

/// One round of the mixing function the chances draw from.
pub open spec fn spec_mix(x: u64) -> u64 {
    let a = vstd::wrapping::u64_specs::wrapping_add(x, 0x9E3779B97F4A7C15);
    let b = vstd::wrapping::u64_specs::wrapping_mul(a ^ (a >> 30), 0xBF58476D1CE4E5B9);
    let c = vstd::wrapping::u64_specs::wrapping_mul(b ^ (b >> 27), 0x94D049BB133111EB);
    c ^ (c >> 31)
}

/// Whether a chance-marked template plays: a coin that depends only on the
/// seed, the pass number, the channel and the step, so equal seeds give
/// equal progressions and peeking never disturbs them.
pub open spec fn spec_keep(seed: u64, cursor: u64, channel: u64, idx: u64) -> bool {
    spec_mix(spec_mix(spec_mix(spec_mix(seed) ^ cursor) ^ channel) ^ idx) & 1 == 1
}

/// One round of the mixing function.
fn mix(x: u64) -> (r: u64)
    ensures
        r == spec_mix(x),
{
    let a = x.wrapping_add(0x9E3779B97F4A7C15);
    let b = (a ^ (a >> 30)).wrapping_mul(0xBF58476D1CE4E5B9);
    let c = (b ^ (b >> 27)).wrapping_mul(0x94D049BB133111EB);
    c ^ (c >> 31)
}

/// The coin for one chance-marked template.
fn keep_event(seed: u64, cursor: u64, channel: u64, idx: u64) -> (r: bool)
    ensures
        r == spec_keep(seed, cursor, channel, idx),
{
    mix(mix(mix(mix(seed) ^ cursor) ^ channel) ^ idx) & 1 == 1
}

/// The template a step offers in the pass numbered by the cursor.
pub open spec fn spec_step_template(s: StepModel, cursor: u64) -> TemplateModel {
    match s {
        StepModel::Single(t) => t,
        StepModel::Alternates(ts) => ts[(cursor as int) % (ts.len() as int)],
    }
}

/// The event the step at `i` contributes: the chosen template over the exact
/// span `[i/n, (i+1)/n)` of a channel with `n` steps.
pub open spec fn spec_event_at(steps: Seq<StepModel>, cursor: u64, i: int) -> CycleEventModel {
    let t = spec_step_template(steps[i], cursor);
    CycleEventModel {
        string: t.string,
        value: t.value,
        targets: t.targets,
        start: Fraction { num: i as i32, den: steps.len() as i32 },
        length: Fraction { num: 1, den: steps.len() as i32 },
    }
}

/// The events of one channel's steps below `k`, in step order: each step's
/// chosen template, skipping chance-marked templates whose coin says no.
pub open spec fn spec_channel_events_prefix(
    steps: Seq<StepModel>,
    seed: u64,
    cursor: u64,
    channel: u64,
    k: int,
) -> Seq<CycleEventModel>
    decreases k,
{
    if k <= 0 {
        Seq::empty()
    } else {
        let rest = spec_channel_events_prefix(steps, seed, cursor, channel, k - 1);
        let t = spec_step_template(steps[k - 1], cursor);
        if !t.chance || spec_keep(seed, cursor, channel, (k - 1) as u64) {
            rest + seq![spec_event_at(steps, cursor, k - 1)]
        } else {
            rest
        }
    }
}

/// The events one channel produces in the pass numbered by the cursor.
pub open spec fn spec_channel_events(
    steps: Seq<StepModel>,
    seed: u64,
    cursor: u64,
    channel: u64,
) -> Seq<CycleEventModel> {
    spec_channel_events_prefix(steps, seed, cursor, channel, steps.len() as int)
}

/// The events of all channels for one pass, in channel order.
pub open spec fn spec_cycle_events(c: CycleModel) -> Seq<Seq<CycleEventModel>> {
    Seq::new(
        c.channels.len(),
        |ch: int| spec_channel_events(c.channels[ch], c.seed, c.cursor, ch as u64),
    )
}

/// The views of produced events, in order.
pub open spec fn events_view(v: Seq<CycleEvent>) -> Seq<CycleEventModel> {
    Seq::new(v.len(), |i: int| v[i]@)
}

/// A deep copy of one inline target, equal to the original.
pub fn clone_target(t: &CycleTarget) -> (r: CycleTarget)
    ensures
        r == *t,
{
    match t {
        CycleTarget::Index(i) => CycleTarget::Index(*i),
        CycleTarget::Named(name, value) => CycleTarget::Named(name.clone(), *value),
    }
}

/// A deep copy of a target list, equal to the original.
pub fn clone_targets(v: &Vec<CycleTarget>) -> (r: Vec<CycleTarget>)
    ensures
        r@ == v@,
{
    let mut out: Vec<CycleTarget> = Vec::new();
    let mut i: usize = 0;
    while i < v.len()
        invariant
            i <= v@.len(),
            out@ =~= v@.take(i as int),
        decreases v@.len() - i,
    {
        out.push(clone_target(&v[i]));
        proof {
            assert(out@ =~= v@.take(i as int + 1));
        }
        i = i + 1;
    }
    proof {
        assert(v@.take(v@.len() as int) =~= v@);
    }
    out
}

/// A deep copy of one symbolic value, equal to the original.
pub fn clone_value(v: &CycleValue) -> (r: CycleValue)
    ensures
        r == *v,
{
    match v {
        CycleValue::Hold => CycleValue::Hold,
        CycleValue::Rest => CycleValue::Rest,
        CycleValue::Float(f) => CycleValue::Float(*f),
        CycleValue::Integer(i) => CycleValue::Integer(*i),
        CycleValue::Pitch(p) => CycleValue::Pitch(*p),
        CycleValue::Chord(root, mode) => CycleValue::Chord(*root, mode.clone()),
        CycleValue::Target(t) => CycleValue::Target(clone_target(t)),
        CycleValue::Name(s) => CycleValue::Name(s.clone()),
    }
}

/// A deep copy of one template, equal to the original.
pub fn clone_template(t: &EventTemplate) -> (r: EventTemplate)
    ensures
        r@ == t@,
        r.string@ == t.string@,
        r.value == t.value,
        r.targets@ == t.targets@,
        r.chance == t.chance,
{
    EventTemplate {
        string: t.string.clone(),
        value: clone_value(&t.value),
        targets: clone_targets(&t.targets),
        chance: t.chance,
    }
}

/// A deep copy of one step, with the same view.
pub fn clone_step(s: &Step) -> (r: Step)
    ensures
        r@ == s@,
{
    match s {
        Step::Single(t) => Step::Single(clone_template(t)),
        Step::Alternates(ts) => {
            let mut out: Vec<EventTemplate> = Vec::new();
            let mut i: usize = 0;
            while i < ts.len()
                invariant
                    i <= ts@.len(),
                    out@.len() == i as int,
                    forall|j: int| 0 <= j < i as int ==> (#[trigger] out@[j])@ == ts@[j]@,
                decreases ts@.len() - i,
            {
                out.push(clone_template(&ts[i]));
                i = i + 1;
            }
            proof {
                assert(templates_view(out@) =~= templates_view(ts@));
            }
            Step::Alternates(out)
        },
    }
}

impl Cycle {
    /// Builds a compiled cycle at its initial progression state.
    pub fn new(channels: Vec<Vec<Step>>, seed: u64) -> (r: Cycle)
        ensures
            r@.channels == channels_model(channels@),
            r@.seed == seed,
            r@.cursor == 0,
    {
        Cycle { channels, seed, cursor: 0 }
    }

    /// The same compiled pattern with another seed, rewound to the start.
    pub fn with_seed(self, seed: u64) -> (r: Cycle)
        ensures
            r@.channels == self@.channels,
            r@.seed == seed,
            r@.cursor == 0,
    {
        Cycle { channels: self.channels, seed, cursor: 0 }
    }

    /// Produces the events of the current pass, channel by channel, without
    /// touching the progression state: generating is pure and repeatable.
    pub fn generate(&self) -> (r: Vec<Vec<CycleEvent>>)
        requires
            cycle_wf(self@),
        ensures
            r@.len() == spec_cycle_events(self@).len(),
            forall|ch: int|
                0 <= ch < r@.len() ==> events_view((#[trigger] r@[ch])@) == spec_cycle_events(
                    self@,
                )[ch],
    {
        let ghost m = self@;
        let mut out: Vec<Vec<CycleEvent>> = Vec::new();
        let mut ch: usize = 0;
        while ch < self.channels.len()
            invariant
                m == self@,
                cycle_wf(m),
                ch <= self.channels@.len(),
                out@.len() == ch as int,
                forall|c: int|
                    0 <= c < ch as int ==> events_view((#[trigger] out@[c])@)
                        == spec_cycle_events(m)[c],
            decreases self.channels@.len() - ch,
        {
            let steps = &self.channels[ch];
            let ghost sm = steps_view(steps@);
            assert(sm == m.channels[ch as int]);
            let n = steps.len();
            let mut events: Vec<CycleEvent> = Vec::new();
            let mut i: usize = 0;
            while i < n
                invariant
                    m == self@,
                    cycle_wf(m),
                    ch < self.channels@.len(),
                    steps == &self.channels@[ch as int],
                    sm == steps_view(steps@),
                    sm == m.channels[ch as int],
                    n == steps@.len(),
                    n <= 0x7fff_ffff,
                    i <= n,
                    events_view(events@) == spec_channel_events_prefix(
                        sm,
                        m.seed,
                        m.cursor,
                        ch as u64,
                        i as int,
                    ),
                decreases n - i,
            {
                let ghost evs0 = events_view(events@);
                let template: &EventTemplate = match &steps[i] {
                    Step::Single(t) => t,
                    Step::Alternates(ts) => {
                        assert(sm[i as int] == steps@[i as int]@);
                        assert(ts@.len() >= 1);
                        let pick = (self.cursor % (ts.len() as u64)) as usize;
                        assert(pick as int == (m.cursor as int) % (ts@.len() as int));
                        &ts[pick]
                    },
                };
                assert(template@ == spec_step_template(sm[i as int], m.cursor));
                let keep = !template.chance || keep_event(
                    self.seed,
                    self.cursor,
                    ch as u64,
                    i as u64,
                );
                if keep {
                    let ev = CycleEvent {
                        string: template.string.clone(),
                        value: clone_value(&template.value),
                        targets: clone_targets(&template.targets),
                        start: Fraction::new(i as i32, n as i32),
                        length: Fraction::new(1, n as i32),
                    };
                    assert(ev@ == spec_event_at(sm, m.cursor, i as int));
                    events.push(ev);
                    proof {
                        assert(events_view(events@) =~= evs0 + seq![
                            spec_event_at(sm, m.cursor, i as int),
                        ]);
                    }
                }
                i = i + 1;
            }
            out.push(events);
            ch = ch + 1;
        }
        out
    }

    /// Consumes one step of the progression: the next pass draws its
    /// alternatives and chances one round further on.
    pub fn advance(&mut self)
        ensures
            final(self)@.channels == old(self)@.channels,
            final(self)@.seed == old(self)@.seed,
            final(self)@.cursor == vstd::wrapping::u64_specs::wrapping_add(old(self)@.cursor, 1),
    {
        self.cursor = self.cursor.wrapping_add(1);
    }

    /// Rewinds the progression to its initial state, as right after
    /// compilation: seed and pattern stay, the cursor starts over.
    pub fn reset(&mut self)
        ensures
            final(self)@.channels == old(self)@.channels,
            final(self)@.seed == old(self)@.seed,
            final(self)@.cursor == 0,
    {
        self.cursor = 0;
    }

    /// A deep copy with the same pattern and the same progression state, so
    /// the copy and the original can play on without cross-talk.
    pub fn duplicate(&self) -> (r: Cycle)
        ensures
            r@ == self@,
    {
        let mut channels: Vec<Vec<Step>> = Vec::new();
        let mut ch: usize = 0;
        while ch < self.channels.len()
            invariant
                ch <= self.channels@.len(),
                channels@.len() == ch as int,
                forall|c: int|
                    0 <= c < ch as int ==> steps_view((#[trigger] channels@[c])@) == steps_view(
                        self.channels@[c]@,
                    ),
            decreases self.channels@.len() - ch,
        {
            let steps = &self.channels[ch];
            let mut out: Vec<Step> = Vec::new();
            let mut i: usize = 0;
            while i < steps.len()
                invariant
                    i <= steps@.len(),
                    out@.len() == i as int,
                    forall|j: int| 0 <= j < i as int ==> (#[trigger] out@[j])@ == steps@[j]@,
                decreases steps@.len() - i,
            {
                out.push(clone_step(&steps[i]));
                i = i + 1;
            }
            proof {
                assert(steps_view(out@) =~= steps_view(steps@));
            }
            channels.push(out);
            ch = ch + 1;
        }
        proof {
            assert(channels_model(channels@) =~= channels_model(self.channels@));
        }
        Cycle { channels, seed: self.seed, cursor: self.cursor }
    }
}


/// Every event a well-formed cycle produces carries well-formed spans.
pub proof fn lemma_channel_events_prefix_wf(
    steps: Seq<StepModel>,
    seed: u64,
    cursor: u64,
    channel: u64,
    k: int,
)
    requires
        k <= steps.len(),
        steps.len() <= 0x7fff_ffff,
    ensures
        forall|i: int|
            0 <= i < spec_channel_events_prefix(steps, seed, cursor, channel, k).len() ==> frac_wf(
                (#[trigger] spec_channel_events_prefix(steps, seed, cursor, channel, k)[i]).start,
            ) && frac_wf(spec_channel_events_prefix(steps, seed, cursor, channel, k)[i].length),
    decreases k,
{
    if k <= 0 {
    } else {
        lemma_channel_events_prefix_wf(steps, seed, cursor, channel, k - 1);
        let prev = spec_channel_events_prefix(steps, seed, cursor, channel, k - 1);
        let cur = spec_channel_events_prefix(steps, seed, cursor, channel, k);
        assert forall|i: int| 0 <= i < cur.len() implies frac_wf((#[trigger] cur[i]).start)
            && frac_wf(cur[i].length) by {
            if i < prev.len() {
                assert(cur[i] == prev[i]);
            } else {
                assert(cur[i] == spec_event_at(steps, cursor, k - 1));
                assert(1 <= steps.len() <= 0x7fff_ffff);
            }
        }
    }
}

/// Every event of a pass of a well-formed cycle carries well-formed spans.
pub proof fn lemma_cycle_events_wf(c: CycleModel)
    requires
        cycle_wf(c),
    ensures
        forall|ch: int, i: int|
            0 <= ch < spec_cycle_events(c).len() && 0 <= i < spec_cycle_events(c)[ch].len()
                ==> frac_wf((#[trigger] spec_cycle_events(c)[ch][i]).start) && frac_wf(
                spec_cycle_events(c)[ch][i].length,
            ),
{
    assert forall|ch: int, i: int|
        0 <= ch < spec_cycle_events(c).len() && 0 <= i < spec_cycle_events(c)[ch].len() implies
        frac_wf((#[trigger] spec_cycle_events(c)[ch][i]).start) && frac_wf(
        spec_cycle_events(c)[ch][i].length,
    ) by {
        lemma_channel_events_prefix_wf(
            c.channels[ch],
            c.seed,
            c.cursor,
            ch as u64,
            c.channels[ch].len() as int,
        );
    }
}

} // verus!
