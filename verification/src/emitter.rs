//! The cycle emitter: one generation pass per rhythmic pulse.
//!
//! Each pass reads every channel's events from the compiled cycle, resolves
//! each through the mapping table or the default resolver, decorates it with
//! its inline targets, merges everything through the per-pass accumulator
//! and hands back the flattened composite events.  Peeking at a pass never
//! moves the progression; only an explicit advance does.

use vstd::prelude::*;

use crate::accumulator::{acc_wf, spec_add, spec_flatten, AccModel, CycleNoteEvents};
use crate::cycle::{cycle_wf, spec_cycle_events, Cycle, CycleModel};
use crate::fraction::frac_wf;
use crate::note::{EmitterEvent, EmitterEventModel, Event, NoteEvent};
use crate::parser::{parse_cycle, spec_parse_cycle};
use crate::properties::{apply_cycle_note_properties, spec_apply_note_properties};
use crate::resolver::{note_stack_from_value, spec_resolve};
use crate::text::{str_concat3, str_eq};
use crate::value::{CycleEvent, CycleEventModel};

verus! {

/// Emits note events from a compiled cycle.
///
/// Channels are merged down into note events on different voices.  Tokens
/// can be mapped to literal note stacks with an optional mapping table.
pub struct CycleEmitter {
    pub cycle: Cycle,
    pub mappings: Vec<(String, Vec<Option<NoteEvent>>)>,
}

/// The mathematical shape of a [`CycleEmitter`]: the compiled cycle with its
/// progression state, and the mapping table as a list of keyed note stacks.
pub ghost struct EmitterModel {
    pub cycle: CycleModel,
    pub mappings: Seq<(Seq<char>, Seq<Option<NoteEvent>>)>,
}

/// The views of the mapping entries, in order.
pub open spec fn pairs_view(s: Seq<(String, Vec<Option<NoteEvent>>)>) -> Seq<
    (Seq<char>, Seq<Option<NoteEvent>>),
> {
    Seq::new(s.len(), |i: int| (s[i].0@, s[i].1@))
}

impl View for CycleEmitter {
    type V = EmitterModel;

    open spec fn view(&self) -> EmitterModel {
        EmitterModel { cycle: self.cycle@, mappings: pairs_view(self.mappings@) }
    }
}

/// An emitter is well formed when its compiled cycle is.
pub open spec fn emitter_wf(m: EmitterModel) -> bool {
    cycle_wf(m.cycle)
}

/// The mapping-table entry for a token: the latest entry wins, as the table
/// builder replaces earlier entries for the same token.
pub open spec fn spec_lookup(
    pairs: Seq<(Seq<char>, Seq<Option<NoteEvent>>)>,
    key: Seq<char>,
) -> Option<Seq<Option<NoteEvent>>>
    decreases pairs.len(),
{
    if pairs.len() == 0 {
        None
    } else if pairs.last().0 == key {
        Some(pairs.last().1)
    } else {
        spec_lookup(pairs.drop_last(), key)
    }
}

/// What mapping one produced event gives: the mapping table is consulted
/// first with the event's raw token and, on a hit, the literal override is
/// used verbatim - bypassing the resolver and any chord expansion entirely;
/// on a miss the default resolver decides.  Either way the event's inline
/// targets are applied afterwards.
pub open spec fn spec_map_event(
    mappings: Seq<(Seq<char>, Seq<Option<NoteEvent>>)>,
    e: CycleEventModel,
) -> Result<Seq<Option<NoteEvent>>, Seq<char>> {
    match spec_lookup(mappings, e.string) {
        Some(stack) => spec_apply_note_properties(stack, e.targets),
        None => match spec_resolve(e.value) {
            Err(m) => Err(m),
            Ok(stack) => spec_apply_note_properties(stack, e.targets),
        },
    }
}

/// A mapped token is resolved from the table alone: whatever its value
/// would resolve to by default, the override decides the note stack.
pub proof fn lemma_mapping_overrides_resolver(
    mappings: Seq<(Seq<char>, Seq<Option<NoteEvent>>)>,
    e: CycleEventModel,
)
    requires
        spec_lookup(mappings, e.string) is Some,
    ensures
        spec_map_event(mappings, e) == spec_apply_note_properties(
            spec_lookup(mappings, e.string)->Some_0,
            e.targets,
        ),
{
}

/// One channel's events fed into the accumulator, in order; an empty mapped
/// stack contributes nothing.
pub open spec fn spec_feed_channel(
    acc: AccModel,
    mappings: Seq<(Seq<char>, Seq<Option<NoteEvent>>)>,
    evs: Seq<CycleEventModel>,
    ch: int,
) -> Result<AccModel, Seq<char>>
    decreases evs.len(),
{
    if evs.len() == 0 {
        Ok(acc)
    } else {
        match spec_map_event(mappings, evs[0]) {
            Err(m) => Err(m),
            Ok(stack) => spec_feed_channel(
                if stack.len() > 0 {
                    spec_add(acc, ch, evs[0].start, evs[0].length, stack)
                } else {
                    acc
                },
                mappings,
                evs.skip(1),
                ch,
            ),
        }
    }
}

/// All channels fed in channel order.
pub open spec fn spec_feed_channels(
    acc: AccModel,
    mappings: Seq<(Seq<char>, Seq<Option<NoteEvent>>)>,
    chans: Seq<Seq<CycleEventModel>>,
    ch0: int,
) -> Result<AccModel, Seq<char>>
    decreases chans.len(),
{
    if chans.len() == 0 {
        Ok(acc)
    } else {
        match spec_feed_channel(acc, mappings, chans[0], ch0) {
            Err(m) => Err(m),
            Ok(a) => spec_feed_channels(a, mappings, chans.skip(1), ch0 + 1),
        }
    }
}

/// The empty accumulator a pass starts from.
pub open spec fn empty_acc() -> AccModel {
    AccModel { slots: Seq::empty(), counts: Seq::empty() }
}

/// What one generation pass returns: every channel's events of the current
/// pass mapped and fed into a fresh accumulator, then flattened; or the
/// first mapping failure.
pub open spec fn spec_generate(em: EmitterModel) -> Result<Seq<EmitterEventModel>, Seq<char>> {
    match spec_feed_channels(empty_acc(), em.mappings, spec_cycle_events(em.cycle), 0) {
        Err(m) => Err(m),
        Ok(acc) => Ok(spec_flatten(acc)),
    }
}

/// The error for a pattern text that does not parse; it repeats the text.
pub open spec fn msg_invalid_pattern(s: Seq<char>) -> Seq<char> {
    "invalid cycle pattern: '"@ + s + "'"@
}

/// A copy of a note stack.
fn copy_stack(v: &Vec<Option<NoteEvent>>) -> (r: Vec<Option<NoteEvent>>)
    ensures
        r@ == v@,
{
    let mut out: Vec<Option<NoteEvent>> = Vec::new();
    let mut i: usize = 0;
    while i < v.len()
        invariant
            i <= v@.len(),
            out@ =~= v@.take(i as int),
        decreases v@.len() - i,
    {
        out.push(v[i]);
        proof {
            assert(out@ =~= v@.take(i as int + 1));
        }
        i = i + 1;
    }
    proof {
        assert(v@.take(v@.len() as int) =~= v@);
    }
    out
}

impl CycleEmitter {
    /// Wraps a compiled cycle with an empty mapping table.
    pub fn new(cycle: Cycle) -> (r: CycleEmitter)
        ensures
            r@.cycle == cycle@,
            r@.mappings == Seq::<(Seq<char>, Seq<Option<NoteEvent>>)>::empty(),
    {
        let r = CycleEmitter { cycle, mappings: Vec::new() };
        proof {
            assert(r@.mappings =~= Seq::<(Seq<char>, Seq<Option<NoteEvent>>)>::empty());
        }
        r
    }

    /// Compiles an emitter from pattern text, with the default seed.
    ///
    /// Returns an error repeating the text when it fails to parse.
    pub fn from_mini(input: &str) -> (r: Result<CycleEmitter, String>)
        ensures
            r is Ok <==> spec_parse_cycle(input@) is Some,
            r is Ok ==> (r->Ok_0)@ == (EmitterModel {
                cycle: CycleModel {
                    channels: spec_parse_cycle(input@)->Some_0,
                    seed: 0,
                    cursor: 0,
                },
                mappings: Seq::empty(),
            }) && emitter_wf((r->Ok_0)@),
            r is Err ==> r->Err_0@ == msg_invalid_pattern(input@),
    {
        Self::from_mini_with_seed(input, 0)
    }

    /// Compiles an emitter from pattern text with an explicit seed for its
    /// chance operators, so runs are reproducible.
    ///
    /// Returns an error repeating the text when it fails to parse.
    pub fn from_mini_with_seed(input: &str, seed: u64) -> (r: Result<CycleEmitter, String>)
        ensures
            r is Ok <==> spec_parse_cycle(input@) is Some,
            r is Ok ==> (r->Ok_0)@ == (EmitterModel {
                cycle: CycleModel {
                    channels: spec_parse_cycle(input@)->Some_0,
                    seed: seed,
                    cursor: 0,
                },
                mappings: Seq::empty(),
            }) && emitter_wf((r->Ok_0)@),
            r is Err ==> r->Err_0@ == msg_invalid_pattern(input@),
    {
        match parse_cycle(input) {
            Some(channels) => {
                let ghost chm = crate::cycle::channels_model(channels@);
                let e = Self::new(Cycle::new(channels, seed));
                proof {
                    assert(e@.cycle == (CycleModel { channels: chm, seed: seed, cursor: 0 }));
                    assert(cycle_wf(CycleModel { channels: chm, seed: 0, cursor: 0 }));
                    assert(cycle_wf(e@.cycle));
                }
                Ok(e)
            },
            None => Err(str_concat3("invalid cycle pattern: '", input, "'")),
        }
    }

    /// The same emitter with the mapping table replaced entirely by the
    /// given (token, note stack) pairs - the last call wins as a whole, and
    /// within one call a later entry for the same token wins.
    pub fn with_mappings(self, map: &[(String, Vec<Option<NoteEvent>>)]) -> (r: CycleEmitter)
        ensures
            r@.cycle == self@.cycle,
            r@.mappings == pairs_view(map@),
    {
        let mut mappings: Vec<(String, Vec<Option<NoteEvent>>)> = Vec::new();
        let mut i: usize = 0;
        while i < map.len()
            invariant
                i <= map@.len(),
                mappings@.len() == i as int,
                forall|j: int|
                    0 <= j < i as int ==> (#[trigger] mappings@[j]).0@ == map@[j].0@
                        && mappings@[j].1@ == map@[j].1@,
            decreases map@.len() - i,
        {
            let key = map[i].0.clone();
            let stack = copy_stack(&map[i].1);
            mappings.push((key, stack));
            i = i + 1;
        }
        proof {
            assert(pairs_view(mappings@) =~= pairs_view(map@));
        }
        CycleEmitter { cycle: self.cycle, mappings }
    }

    /// The mapping-table entry for a token, if there is one; a later entry
    /// for the same token shadows an earlier one.
    fn lookup_mapping(&self, key: &str) -> (r: Option<Vec<Option<NoteEvent>>>)
        ensures
            (match (r, spec_lookup(self@.mappings, key@)) {
                (Some(v), Some(m)) => v@ == m,
                (None, None) => true,
                _ => false,
            }),
    {
        let ghost pairs = self@.mappings;
        let mut i: usize = self.mappings.len();
        proof {
            assert(pairs.take(pairs.len() as int) =~= pairs);
        }
        while i > 0
            invariant
                i <= self.mappings@.len(),
                pairs == self@.mappings,
                spec_lookup(pairs, key@) == spec_lookup(pairs.take(i as int), key@),
            decreases i,
        {
            i = i - 1;
            assert(pairs[i as int].0 == self.mappings@[i as int].0@);
            if str_eq(self.mappings[i].0.as_str(), key) {
                let found = copy_stack(&self.mappings[i].1);
                proof {
                    assert(pairs.take(i as int + 1).last() == pairs[i as int]);
                }
                return Some(found);
            }
            proof {
                assert(pairs.take(i as int + 1).last() == pairs[i as int]);
                assert(pairs.take(i as int + 1).drop_last() =~= pairs.take(i as int));
            }
        }
        proof {
            assert(pairs.take(0) =~= Seq::<(Seq<char>, Seq<Option<NoteEvent>>)>::empty());
        }
        None
    }

    /// Maps one produced event to its note stack: the mapping table first,
    /// the default resolver on a miss, the inline targets afterwards.
    ///
    /// Propagates resolution and range errors.
    pub fn map_note_event(&self, event: &CycleEvent) -> (r: Result<Vec<Option<NoteEvent>>, String>)
        ensures
            (match (r, spec_map_event(self@.mappings, event@)) {
                (Ok(v), Ok(m)) => v@ == m,
                (Err(e), Err(m)) => e@ == m,
                _ => false,
            }),
    {
        let mut note_events: Vec<Option<NoteEvent>> = match self.lookup_mapping(
            event.string.as_str(),
        ) {
            Some(stack) => stack,
            None => {
                match note_stack_from_value(&event.value) {
                    Ok(stack) => stack,
                    Err(e) => {
                        return Err(e);
                    },
                }
            },
        };
        match apply_cycle_note_properties(&mut note_events, event.targets.as_slice()) {
            Ok(()) => Ok(note_events),
            Err(e) => Err(e),
        }
    }


    /// Feeds one channel's events of the current pass into the accumulator.
    #[verifier::rlimit(100)]
    fn feed_one_channel(
        &self,
        acc: &mut CycleNoteEvents,
        channel_events: &Vec<CycleEvent>,
        ch: usize,
    ) -> (r: Result<(), String>)
        requires
            acc_wf(old(acc)@),
            ch < usize::MAX,
            forall|i: int|
                0 <= i < channel_events@.len() ==> frac_wf(
                    (#[trigger] channel_events@[i]).start,
                ) && frac_wf(channel_events@[i].length),
        ensures
            (match (r, spec_feed_channel(
                old(acc)@,
                self@.mappings,
                crate::cycle::events_view(channel_events@),
                ch as int,
            )) {
                (Ok(u), Ok(a)) => final(acc)@ == a && acc_wf(a),
                (Err(e), Err(m)) => e@ == m,
                _ => false,
            }),
    {
        let ghost evm = crate::cycle::events_view(channel_events@);
        let ghost m = self@.mappings;
        proof {
            assert(evm.skip(0) =~= evm);
        }
        let mut j: usize = 0;
        while j < channel_events.len()
            invariant
                evm == crate::cycle::events_view(channel_events@),
                m == self@.mappings,
                forall|i: int|
                    0 <= i < channel_events@.len() ==> frac_wf(
                        (#[trigger] channel_events@[i]).start,
                    ) && frac_wf(channel_events@[i].length),
                j <= channel_events@.len(),
                evm.len() == channel_events@.len(),
                ch < usize::MAX,
                acc_wf(acc@),
                spec_feed_channel(old(acc)@, m, evm, ch as int) == spec_feed_channel(
                    acc@,
                    m,
                    evm.skip(j as int),
                    ch as int,
                ),
            decreases channel_events@.len() - j,
        {
            let event = &channel_events[j];
            proof {
                assert(event@ == evm[j as int]);
                assert(evm.skip(j as int)[0] == evm[j as int]);
                assert(evm.skip(j as int).skip(1) =~= evm.skip(j as int + 1));
                assert(frac_wf(channel_events@[j as int].start));
                assert(event.start == channel_events@[j as int].start);
                assert(event.length == channel_events@[j as int].length);
            }
            match self.map_note_event(event) {
                Ok(note_events) => {
                    if note_events.len() > 0 {
                        acc.add(ch, event.start, event.length, note_events);
                    }
                },
                Err(e) => {
                    return Err(e);
                },
            }
            j = j + 1;
        }
        proof {
            assert(evm.skip(evm.len() as int) =~= Seq::<CycleEventModel>::empty());
        }
        Ok(())
    }

    /// Runs one generation pass without touching the progression state.
    ///
    /// Converts every channel's events of the current pass to note stacks,
    /// merges them through a fresh accumulator and returns the flattened
    /// composite events in ascending start order; or the first resolution or
    /// range error of the pass.
    #[verifier::rlimit(100)]
    pub fn generate(&self) -> (r: Result<Vec<EmitterEvent>, String>)
        requires
            emitter_wf(self@),
        ensures
            (match (r, spec_generate(self@)) {
                (Ok(v), Ok(s)) => v@.len() == s.len() && forall|i: int|
                    0 <= i < v@.len() ==> (#[trigger] v@[i])@ == s[i],
                (Err(e), Err(m)) => e@ == m,
                _ => false,
            }),
    {
        let ghost em = self@;
        let ghost chans = spec_cycle_events(em.cycle);
        let ghost goal = spec_feed_channels(empty_acc(), em.mappings, chans, 0);
        let events: Vec<Vec<CycleEvent>> = self.cycle.generate();
        proof {
            crate::cycle::lemma_cycle_events_wf(em.cycle);
        }
        let mut acc = CycleNoteEvents::new();
        proof {
            assert(acc@.slots =~= empty_acc().slots);
            assert(acc@.counts =~= empty_acc().counts);
            assert(acc@ == empty_acc());
            assert(chans.skip(0) =~= chans);
        }
        let mut ch: usize = 0;
        while ch < events.len()
            invariant
                em == self@,
                chans == spec_cycle_events(em.cycle),
                goal == spec_feed_channels(empty_acc(), em.mappings, chans, 0),
                events@.len() == chans.len(),
                forall|c: int|
                    0 <= c < events@.len() ==> crate::cycle::events_view((#[trigger] events@[c])@)
                        == chans[c],
                forall|c: int, i: int|
                    0 <= c < chans.len() && 0 <= i < chans[c].len() ==> frac_wf(
                        (#[trigger] chans[c][i]).start,
                    ) && frac_wf(chans[c][i].length),
                ch <= events@.len(),
                acc_wf(acc@),
                goal == spec_feed_channels(acc@, em.mappings, chans.skip(ch as int), ch as int),
            decreases events@.len() - ch,
        {
            let channel_events = &events[ch];
            let ghost evm = chans[ch as int];
            proof {
                assert(crate::cycle::events_view(channel_events@) == evm);
                assert(chans.skip(ch as int)[0] == evm);
                assert(chans.skip(ch as int).skip(1) =~= chans.skip(ch as int + 1));
                assert forall|i: int| 0 <= i < channel_events@.len() implies frac_wf(
                    (#[trigger] channel_events@[i]).start,
                ) && frac_wf(channel_events@[i].length) by {
                    assert(channel_events@[i]@ == evm[i]);
                }
            }
            let ghost acc0 = acc@;
            match self.feed_one_channel(&mut acc, channel_events, ch) {
                Ok(()) => {
                    proof {
                        assert(spec_feed_channel(acc0, em.mappings, evm, ch as int) == Ok::<
                            AccModel,
                            Seq<char>,
                        >(acc@));
                    }
                },
                Err(e) => {
                    return Err(e);
                },
            }
            ch = ch + 1;
        }
        proof {
            assert(chans.skip(chans.len() as int) =~= Seq::<Seq<CycleEventModel>>::empty());
        }
        Ok(acc.into_event_iter_items())
    }

    /// Returns a freshly generated batch when the pulse fires, and nothing
    /// otherwise; in neither case does it move the progression, so peeking
    /// is pure and repeatable.
    pub fn run(&self, emit_event: bool) -> (r: Option<Vec<EmitterEvent>>)
        requires
            emitter_wf(self@),
            emit_event ==> spec_generate(self@) is Ok,
        ensures
            !emit_event ==> r is None,
            emit_event ==> r is Some && ({
                let s = spec_generate(self@)->Ok_0;
                &&& (r->Some_0)@.len() == s.len()
                &&& forall|i: int| 0 <= i < s.len() ==> ((r->Some_0)@[i])@ == s[i]
            }),
    {
        if emit_event {
            match self.generate() {
                Ok(events) => Some(events),
                Err(_) => vstd::pervasive::unreached(),
            }
        } else {
            None
        }
    }

    /// Accepts the note event that triggered playback; the emitter's output
    /// depends only on its own pattern state, so this is a no-op.
    pub fn set_trigger_event(&mut self, _event: &Event)
        ensures
            *final(self) == *old(self),
    {
    }

    /// Consumes one step of the progression when the pulse fires; a host can
    /// peek first and commit separately.
    pub fn advance(&mut self, emit_event: bool)
        ensures
            final(self)@.mappings == old(self)@.mappings,
            final(self)@.cycle.channels == old(self)@.cycle.channels,
            final(self)@.cycle.seed == old(self)@.cycle.seed,
            final(self)@.cycle.cursor == if emit_event {
                vstd::wrapping::u64_specs::wrapping_add(old(self)@.cycle.cursor, 1)
            } else {
                old(self)@.cycle.cursor
            },
    {
        if emit_event {
            self.cycle.advance();
        }
    }

    /// A deep copy with identical state, so independent playback voices
    /// sharing one compiled pattern never cross-talk.
    pub fn duplicate(&self) -> (r: CycleEmitter)
        ensures
            r@ == self@,
    {
        let cycle = self.cycle.duplicate();
        let mut mappings: Vec<(String, Vec<Option<NoteEvent>>)> = Vec::new();
        let mut i: usize = 0;
        while i < self.mappings.len()
            invariant
                i <= self.mappings@.len(),
                mappings@.len() == i as int,
                forall|j: int|
                    0 <= j < i as int ==> (#[trigger] mappings@[j]).0@ == self.mappings@[j].0@
                        && mappings@[j].1@ == self.mappings@[j].1@,
            decreases self.mappings@.len() - i,
        {
            let key = self.mappings[i].0.clone();
            let stack = copy_stack(&self.mappings[i].1);
            mappings.push((key, stack));
            i = i + 1;
        }
        let r = CycleEmitter { cycle, mappings };
        proof {
            assert(pairs_view(r.mappings@) =~= pairs_view(self.mappings@));
        }
        r
    }

    /// Rewinds the progression to its initial step and seed state.
    pub fn reset(&mut self)
        ensures
            final(self)@.mappings == old(self)@.mappings,
            final(self)@.cycle.channels == old(self)@.cycle.channels,
            final(self)@.cycle.seed == old(self)@.cycle.seed,
            final(self)@.cycle.cursor == 0,
    {
        self.cycle.reset();
    }
}

/// Compiles an emitter from pattern text, with the default seed.
pub fn new_cycle_emitter(input: &str) -> (r: Result<CycleEmitter, String>)
    ensures
        r is Ok <==> spec_parse_cycle(input@) is Some,
        r is Ok ==> (r->Ok_0)@ == (EmitterModel {
            cycle: CycleModel { channels: spec_parse_cycle(input@)->Some_0, seed: 0, cursor: 0 },
            mappings: Seq::empty(),
        }),
        r is Err ==> r->Err_0@ == msg_invalid_pattern(input@),
{
    CycleEmitter::from_mini(input)
}

/// Compiles an emitter from pattern text and a seed for its chances.
pub fn new_cycle_emitter_with_seed(input: &str, seed: u64) -> (r: Result<CycleEmitter, String>)
    ensures
        r is Ok <==> spec_parse_cycle(input@) is Some,
        r is Ok ==> (r->Ok_0)@ == (EmitterModel {
            cycle: CycleModel { channels: spec_parse_cycle(input@)->Some_0, seed: seed, cursor: 0 },
            mappings: Seq::empty(),
        }),
        r is Err ==> r->Err_0@ == msg_invalid_pattern(input@),
{
    CycleEmitter::from_mini_with_seed(input, seed)
}

/// The emitter state rewound to its initial progression.
pub open spec fn spec_reset(m: EmitterModel) -> EmitterModel {
    EmitterModel {
        cycle: CycleModel { channels: m.cycle.channels, seed: m.cycle.seed, cursor: 0 },
        mappings: m.mappings,
    }
}

/// The emitter state one consumed step later.
pub open spec fn spec_advance(m: EmitterModel) -> EmitterModel {
    EmitterModel {
        cycle: CycleModel {
            channels: m.cycle.channels,
            seed: m.cycle.seed,
            cursor: vstd::wrapping::u64_specs::wrapping_add(m.cycle.cursor, 1),
        },
        mappings: m.mappings,
    }
}

/// The outputs of `n` passes, generating and then advancing each time.
pub open spec fn spec_trace(m: EmitterModel, n: nat) -> Seq<
    Result<Seq<EmitterEventModel>, Seq<char>>,
>
    decreases n,
{
    if n == 0 {
        Seq::empty()
    } else {
        seq![spec_generate(m)] + spec_trace(spec_advance(m), (n - 1) as nat)
    }
}

/// Determinism and round trip: an emitter and a duplicate - any two
/// emitters with the same pattern, seed and mappings - produce identical
/// event traces after a reset, however far either had advanced before;
/// equal seeds give equal progressions.
pub proof fn lemma_duplicate_reset_round_trip(a: EmitterModel, b: EmitterModel, n: nat)
    requires
        a.cycle.channels == b.cycle.channels,
        a.cycle.seed == b.cycle.seed,
        a.mappings == b.mappings,
    ensures
        spec_trace(spec_reset(a), n) == spec_trace(spec_reset(b), n),
        spec_trace(spec_reset(spec_advance(a)), n) == spec_trace(spec_reset(a), n),
{
    assert(spec_reset(a) == spec_reset(b));
    assert(spec_reset(spec_advance(a)) == spec_reset(a));
}

} // verus!
