use vstd::prelude::*;

verus! {

/// Number of voice slots in the pool.
pub const NUM_VOICES: usize = 16;

/// Notification to the host that a voice stopped sounding.
#[derive(Clone, Copy, Debug, PartialEq, Eq, Structural)]
pub struct VoiceTerminated {
    pub timing: u32,
    pub voice_id: i32,
    pub channel: u8,
    pub note: u8,
}

/// Identity and lifetime of one voice slot.
#[derive(Clone, Copy, Debug, PartialEq, Eq, Structural)]
pub struct Voice {
    pub active: bool,
    pub voice_id: i32,
    pub channel: u8,
    pub note: u8,
    /// Allocation stamp: larger means started later.
    pub internal_voice_id: u64,
    /// Samples the voice lasts, fixed when it starts.
    pub total_duration: usize,
    /// Samples rendered since it started.
    pub sample_count: usize,
}

pub open spec fn fallback_voice_id_spec(note: u8, channel: u8) -> i32 {
    (note as int + channel as int * 65536) as i32
}

/// Voice id used when the host supplies none: the note in the low bits, the
/// channel from bit 16 on.
pub fn compute_fallback_voice_id(note: u8, channel: u8) -> (r: i32)
    ensures
        r == fallback_voice_id_spec(note, channel),
        r as int == note as int + channel as int * 65536,
{
    note as i32 + (channel as i32) * 65536
}

/// The id a new voice carries: the host's, or the fallback.
pub open spec fn resolved_voice_id(voice_id: Option<i32>, channel: u8, note: u8) -> i32 {
    match voice_id {
        Some(v) => v,
        None => fallback_voice_id_spec(note, channel),
    }
}

impl Voice {
    pub open spec fn idle() -> Voice {
        Voice {
            active: false,
            voice_id: 0,
            channel: 0,
            note: 0,
            internal_voice_id: 0,
            total_duration: 0,
            sample_count: 0,
        }
    }

    /// The notification sent when this voice ends at `timing`.
    pub open spec fn termination(self, timing: u32) -> VoiceTerminated {
        VoiceTerminated {
            timing,
            voice_id: self.voice_id,
            channel: self.channel,
            note: self.note,
        }
    }

    /// This voice after rendering `block_len` more samples: the count grows
    /// (saturating) and the voice goes silent once the count reaches its duration.
    pub open spec fn advanced(self, block_len: usize) -> Voice {
        if !self.active {
            self
        } else {
            let c = self.sample_count.saturating_add(block_len);
            Voice { active: c < self.total_duration, sample_count: c, ..self }
        }
    }

    pub fn new() -> (r: Voice)
        ensures
            r == Voice::idle(),
    {
        Voice {
            active: false,
            voice_id: 0,
            channel: 0,
            note: 0,
            internal_voice_id: 0,
            total_duration: 0,
            sample_count: 0,
        }
    }

    /// Whether the voice has played its whole duration.
    pub fn is_finished(&self) -> (r: bool)
        ensures
            r == (self.sample_count >= self.total_duration),
    {
        self.sample_count >= self.total_duration
    }

    /// Puts the slot back to its initial state.
    pub fn reset(&mut self)
        ensures
            *final(self) == Voice::idle(),
    {
        *self = Voice::new();
    }
}

/// The pool invariant: sixteen slots; every active voice carries a stamp in
/// `1..=counter`, and no two active voices carry the same stamp.
pub open spec fn pool_wf(s: Seq<Voice>, counter: u64) -> bool {
    &&& s.len() == NUM_VOICES
    &&& forall|i: int|
        0 <= i < s.len() && #[trigger] s[i].active ==> 1 <= s[i].internal_voice_id <= counter
    &&& forall|i: int, j: int|
        0 <= i < s.len() && 0 <= j < s.len() && i != j && #[trigger] s[i].active
            && #[trigger] s[j].active ==> s[i].internal_voice_id != s[j].internal_voice_id
}

pub open spec fn has_free(s: Seq<Voice>) -> bool {
    exists|i: int| 0 <= i < s.len() && !#[trigger] s[i].active
}

/// `i` is the first inactive slot.
pub open spec fn is_first_free(s: Seq<Voice>, i: int) -> bool {
    &&& 0 <= i < s.len()
    &&& !s[i].active
    &&& forall|j: int| 0 <= j < i ==> #[trigger] s[j].active
}

pub open spec fn first_free(s: Seq<Voice>) -> int {
    choose|i: int| is_first_free(s, i)
}

/// `i` is the active slot with the smallest stamp among the first `n` slots,
/// the first such slot on a tie.
pub open spec fn is_oldest_in(s: Seq<Voice>, i: int, n: int) -> bool {
    &&& 0 <= i < n <= s.len()
    &&& s[i].active
    &&& forall|j: int|
        0 <= j < n && #[trigger] s[j].active ==> s[i].internal_voice_id <= s[j].internal_voice_id
    &&& forall|j: int|
        0 <= j < i && #[trigger] s[j].active ==> s[i].internal_voice_id < s[j].internal_voice_id
}

pub open spec fn is_oldest(s: Seq<Voice>, i: int) -> bool {
    is_oldest_in(s, i, s.len() as int)
}

pub open spec fn oldest(s: Seq<Voice>) -> int {
    choose|i: int| is_oldest(s, i)
}

/// The slot a new note takes: the first free one, else the oldest.
pub open spec fn chosen_slot(s: Seq<Voice>) -> int {
    if has_free(s) {
        first_free(s)
    } else {
        oldest(s)
    }
}

/// What starting a note reports: nothing, or the end of the voice it steals.
pub open spec fn start_events(s: Seq<Voice>, timing: u32) -> Seq<VoiceTerminated> {
    if has_free(s) {
        seq![]
    } else {
        seq![s[oldest(s)].termination(timing)]
    }
}

/// `v` relabelled for a new note; its lifetime fields are kept until it is armed.
pub open spec fn relabelled(v: Voice, voice_id: i32, channel: u8, note: u8, stamp: u64) -> Voice {
    Voice { active: true, voice_id, channel, note, internal_voice_id: stamp, ..v }
}

/// The slots after a note starts when the stamp counter stood at `counter`.
pub open spec fn started_slots(
    s: Seq<Voice>,
    counter: u64,
    voice_id: Option<i32>,
    channel: u8,
    note: u8,
) -> Seq<Voice> {
    let slot = chosen_slot(s);
    s.update(
        slot,
        relabelled(s[slot], resolved_voice_id(voice_id, channel, note), channel, note, (counter + 1) as u64),
    )
}

pub proof fn lemma_first_free_unique(s: Seq<Voice>, i: int, k: int)
    requires
        is_first_free(s, i),
        is_first_free(s, k),
    ensures
        i == k,
{
    if i < k {
        assert(s[i].active);
    } else if k < i {
        assert(s[k].active);
    }
}

pub proof fn lemma_oldest_unique(s: Seq<Voice>, i: int, k: int)
    requires
        is_oldest(s, i),
        is_oldest(s, k),
    ensures
        i == k,
{
    if i < k {
        assert(s[i].active);
    } else if k < i {
        assert(s[k].active);
    }
}

/// A voice that a choke request targets: an active voice with the given id
/// or, without an id, an active voice of the given channel and note.
pub open spec fn choke_hit(v: Voice, voice_id: Option<i32>, channel: u8, note: u8) -> bool {
    &&& v.active
    &&& match voice_id {
        Some(id) => v.voice_id == id,
        None => v.channel == channel && v.note == note,
    }
}

/// The slots and reports after a choke request has looked at the first `n`
/// slots: every hit goes silent and is reported in slot order; with an id,
/// only the first hit counts.
pub open spec fn choke_prefix(
    s: Seq<Voice>,
    n: int,
    voice_id: Option<i32>,
    channel: u8,
    note: u8,
    timing: u32,
) -> (Seq<Voice>, Seq<VoiceTerminated>)
    decreases n,
{
    if n <= 0 {
        (s, seq![])
    } else {
        let (t, ev) = choke_prefix(s, n - 1, voice_id, channel, note, timing);
        if choke_hit(s[n - 1], voice_id, channel, note) && !(voice_id is Some && ev.len() > 0) {
            (t.update(n - 1, Voice { active: false, ..s[n - 1] }), ev.push(s[n - 1].termination(timing)))
        } else {
            (t, ev)
        }
    }
}

pub open spec fn choked(
    s: Seq<Voice>,
    voice_id: Option<i32>,
    channel: u8,
    note: u8,
    timing: u32,
) -> (Seq<Voice>, Seq<VoiceTerminated>) {
    choke_prefix(s, s.len() as int, voice_id, channel, note, timing)
}

/// Reports of the voices among the first `n` slots that reach their duration
/// after `block_len` more samples, in slot order.
pub open spec fn retired_prefix(s: Seq<Voice>, n: int, block_len: usize, timing: u32) -> Seq<VoiceTerminated>
    decreases n,
{
    if n <= 0 {
        seq![]
    } else {
        let ev = retired_prefix(s, n - 1, block_len, timing);
        if s[n - 1].active && !s[n - 1].advanced(block_len).active {
            ev.push(s[n - 1].termination(timing))
        } else {
            ev
        }
    }
}

pub open spec fn retired(s: Seq<Voice>, block_len: usize, timing: u32) -> Seq<VoiceTerminated> {
    retired_prefix(s, s.len() as int, block_len, timing)
}

/// The slots after every active voice rendered `block_len` more samples.
pub open spec fn advanced_slots(s: Seq<Voice>, block_len: usize) -> Seq<Voice> {
    Seq::new(s.len(), |i: int| s[i].advanced(block_len))
}

proof fn lemma_choke_prefix_shape(
    s: Seq<Voice>,
    n: int,
    voice_id: Option<i32>,
    channel: u8,
    note: u8,
    timing: u32,
)
    requires
        0 <= n <= s.len(),
    ensures
        ({
            let (t, ev) = choke_prefix(s, n, voice_id, channel, note, timing);
            &&& t.len() == s.len()
            &&& forall|j: int| n <= j < s.len() ==> #[trigger] t[j] == s[j]
            &&& forall|j: int| 0 <= j < s.len() ==> #[trigger] t[j] == s[j]
                || t[j] == Voice { active: false, ..s[j] }
        }),
    decreases n,
{
    if n > 0 {
        lemma_choke_prefix_shape(s, n - 1, voice_id, channel, note, timing);
    }
}

/// Choking only silences voices, so the pool invariant survives it.
proof fn lemma_choke_keeps_wf(
    s: Seq<Voice>,
    counter: u64,
    n: int,
    voice_id: Option<i32>,
    channel: u8,
    note: u8,
    timing: u32,
)
    requires
        pool_wf(s, counter),
        0 <= n <= s.len(),
    ensures
        pool_wf(choke_prefix(s, n, voice_id, channel, note, timing).0, counter),
{
    lemma_choke_prefix_shape(s, n, voice_id, channel, note, timing);
    let t = choke_prefix(s, n, voice_id, channel, note, timing).0;
    assert forall|i: int, j: int|
        0 <= i < t.len() && 0 <= j < t.len() && i != j && #[trigger] t[i].active
            && #[trigger] t[j].active implies t[i].internal_voice_id != t[j].internal_voice_id by {
        assert(t[i] == s[i]);
        assert(t[j] == s[j]);
    }
    assert forall|i: int| 0 <= i < t.len() && #[trigger] t[i].active implies 1 <= t[i].internal_voice_id
        <= counter by {
        assert(t[i] == s[i]);
    }
}

/// A pool of voice slots that hands out, steals and retires voices.
pub struct VoiceManager {
    voices: Vec<Voice>,
    next_internal_voice_id: u64,
}

impl VoiceManager {
    /// The slots, in order.
    pub closed spec fn slots(&self) -> Seq<Voice> {
        self.voices@
    }

    /// The last stamp handed out (0 when none was).
    pub closed spec fn counter(&self) -> u64 {
        self.next_internal_voice_id
    }

    pub open spec fn wf(&self) -> bool {
        pool_wf(self.slots(), self.counter())
    }

    pub fn new() -> (r: VoiceManager)
        ensures
            r.wf(),
            r.counter() == 0,
            r.slots() == Seq::new(NUM_VOICES as nat, |i: int| Voice::idle()),
    {
        let mut voices: Vec<Voice> = Vec::new();
        let mut i: usize = 0;
        while i < NUM_VOICES
            invariant
                i <= NUM_VOICES,
                voices@ == Seq::new(i as nat, |k: int| Voice::idle()),
            decreases NUM_VOICES - i,
        {
            voices.push(Voice::new());
            i = i + 1;
            assert(voices@ =~= Seq::new(i as nat, |k: int| Voice::idle()));
        }
        VoiceManager { voices, next_internal_voice_id: 0 }
    }

    /// The slot at `slot`.
    pub fn voice(&self, slot: usize) -> (r: Voice)
        requires
            self.wf(),
            slot < NUM_VOICES,
        ensures
            r == self.slots()[slot as int],
    {
        self.voices[slot]
    }

    /// The last stamp handed out.
    pub fn internal_voice_counter(&self) -> (r: u64)
        ensures
            r == self.counter(),
    {
        self.next_internal_voice_id
    }

    /// The first inactive slot, if any.
    pub fn find_free_slot(&self) -> (r: Option<usize>)
        requires
            self.wf(),
        ensures
            match r {
                Some(i) => is_first_free(self.slots(), i as int),
                None => !has_free(self.slots()),
            },
    {
        let mut i: usize = 0;
        while i < self.voices.len()
            invariant
                self.wf(),
                i <= self.voices.len(),
                forall|j: int| 0 <= j < i ==> #[trigger] self.voices@[j].active,
            decreases self.voices.len() - i,
        {
            if !self.voices[i].active {
                return Some(i);
            }
            i = i + 1;
        }
        None
    }

    /// The active slot with the smallest stamp, if any voice is active.
    pub fn find_oldest_slot(&self) -> (r: Option<usize>)
        requires
            self.wf(),
        ensures
            match r {
                Some(i) => is_oldest(self.slots(), i as int),
                None => forall|j: int| 0 <= j < self.slots().len() ==> !#[trigger] self.slots()[j].active,
            },
    {
        let mut best: Option<usize> = None;
        let mut i: usize = 0;
        while i < self.voices.len()
            invariant
                self.wf(),
                i <= self.voices.len(),
                match best {
                    Some(b) => is_oldest_in(self.voices@, b as int, i as int),
                    None => forall|j: int| 0 <= j < i ==> !#[trigger] self.voices@[j].active,
                },
            decreases self.voices.len() - i,
        {
            let v = self.voices[i];
            if v.active {
                match best {
                    None => {
                        best = Some(i);
                    },
                    Some(b) => {
                        if v.internal_voice_id < self.voices[b].internal_voice_id {
                            best = Some(i);
                        }
                    },
                }
            }
            i = i + 1;
        }
        best
    }

    /// Labels `slot` as an active voice of the given note and stamp.
    pub fn init_voice(
        &mut self,
        slot: usize,
        voice_id: i32,
        channel: u8,
        note: u8,
        internal_voice_id: u64,
    )
        requires
            old(self).wf(),
            slot < NUM_VOICES,
            1 <= internal_voice_id <= old(self).counter(),
            forall|j: int|
                0 <= j < NUM_VOICES && j != slot && #[trigger] old(self).slots()[j].active
                    ==> old(self).slots()[j].internal_voice_id != internal_voice_id,
        ensures
            final(self).wf(),
            final(self).counter() == old(self).counter(),
            final(self).slots() == old(self).slots().update(
                slot as int,
                relabelled(old(self).slots()[slot as int], voice_id, channel, note, internal_voice_id),
            ),
    {
        let v = self.voices[slot];
        self.voices.set(slot, Voice { active: true, voice_id, channel, note, internal_voice_id, ..v });
    }

    /// Marks `slot` inactive.
    pub fn deactivate_voice(&mut self, slot: usize)
        requires
            old(self).wf(),
            slot < NUM_VOICES,
        ensures
            final(self).wf(),
            final(self).counter() == old(self).counter(),
            final(self).slots() == old(self).slots().update(
                slot as int,
                Voice { active: false, ..old(self).slots()[slot as int] },
            ),
    {
        let v = self.voices[slot];
        self.voices.set(slot, Voice { active: false, ..v });
    }

    /// The id, channel and note of the voice in `slot`, if it is active.
    pub fn get_voice_info(&self, slot: usize) -> (r: Option<(i32, u8, u8)>)
        requires
            self.wf(),
            slot < NUM_VOICES,
        ensures
            ({
                let v = self.slots()[slot as int];
                r == if v.active {
                    Some((v.voice_id, v.channel, v.note))
                } else {
                    None
                }
            }),
    {
        let v = self.voices[slot];
        if v.active {
            Some((v.voice_id, v.channel, v.note))
        } else {
            None
        }
    }

    /// Starts a note: takes the first free slot or, when every slot is busy,
    /// steals the oldest voice and reports its end at `sample_offset`. The new
    /// voice gets the next stamp, and the host's id or else the fallback id.
    /// Returns the slot.
    pub fn start_voice(
        &mut self,
        events: &mut Vec<VoiceTerminated>,
        sample_offset: u32,
        voice_id: Option<i32>,
        channel: u8,
        note: u8,
    ) -> (slot: usize)
        requires
            old(self).wf(),
            old(self).counter() < u64::MAX,
        ensures
            final(self).wf(),
            slot < NUM_VOICES,
            slot as int == chosen_slot(old(self).slots()),
            final(self).counter() == old(self).counter() + 1,
            final(self).slots() == started_slots(
                old(self).slots(),
                old(self).counter(),
                voice_id,
                channel,
                note,
            ),
            final(events)@ == old(events)@ + start_events(old(self).slots(), sample_offset),
    {
        let actual_voice_id = match voice_id {
            Some(v) => v,
            None => compute_fallback_voice_id(note, channel),
        };
        let ghost s0 = self.voices@;
        self.next_internal_voice_id = self.next_internal_voice_id + 1;
        let stamp = self.next_internal_voice_id;
        match self.find_free_slot() {
            Some(free_voice_idx) => {
                proof {
                    lemma_first_free_unique(s0, free_voice_idx as int, first_free(s0));
                }
                self.init_voice(free_voice_idx, actual_voice_id, channel, note, stamp);
                assert(events@ =~= old(events)@ + start_events(s0, sample_offset));
                free_voice_idx
            },
            None => {
                let oldest_slot = match self.find_oldest_slot() {
                    Some(o) => o,
                    None => {
                        proof {
                            assert(s0[0].active);
                        }
                        0
                    },
                };
                proof {
                    lemma_oldest_unique(s0, oldest_slot as int, oldest(s0));
                }
                let old_voice = self.voices[oldest_slot];
                events.push(
                    VoiceTerminated {
                        timing: sample_offset,
                        voice_id: old_voice.voice_id,
                        channel: old_voice.channel,
                        note: old_voice.note,
                    },
                );
                self.deactivate_voice(oldest_slot);
                self.init_voice(oldest_slot, actual_voice_id, channel, note, stamp);
                assert(self.voices@ =~= started_slots(s0, old(self).counter(), voice_id, channel, note));
                oldest_slot
            },
        }
    }

    /// Arms the freshly started voice in `slot` to last `total_duration`
    /// samples from now.
    pub fn start_lifetime(&mut self, slot: usize, total_duration: usize)
        requires
            old(self).wf(),
            slot < NUM_VOICES,
            old(self).slots()[slot as int].active,
        ensures
            final(self).wf(),
            final(self).counter() == old(self).counter(),
            final(self).slots() == old(self).slots().update(
                slot as int,
                Voice { total_duration, sample_count: 0, ..old(self).slots()[slot as int] },
            ),
    {
        let v = self.voices[slot];
        self.voices.set(slot, Voice { total_duration, sample_count: 0, ..v });
    }

    /// Ends at once the voices a choke request targets, reporting each at
    /// `sample_offset`. With an id, only the first active voice carrying that
    /// id ends; without one, every active voice of `channel` and `note` ends.
    pub fn choke_voices(
        &mut self,
        events: &mut Vec<VoiceTerminated>,
        sample_offset: u32,
        voice_id: Option<i32>,
        channel: u8,
        note: u8,
    )
        requires
            old(self).wf(),
        ensures
            final(self).wf(),
            final(self).counter() == old(self).counter(),
            final(self).slots() == choked(old(self).slots(), voice_id, channel, note, sample_offset).0,
            final(events)@ == old(events)@ + choked(
                old(self).slots(),
                voice_id,
                channel,
                note,
                sample_offset,
            ).1,
    {
        let ghost s0 = self.voices@;
        let mut ended: usize = 0;
        let mut i: usize = 0;
        while i < self.voices.len()
            invariant
                self.voices@.len() == NUM_VOICES,
                s0.len() == NUM_VOICES,
                self.next_internal_voice_id == old(self).counter(),
                i <= NUM_VOICES,
                self.voices@ == choke_prefix(s0, i as int, voice_id, channel, note, sample_offset).0,
                events@ == old(events)@ + choke_prefix(s0, i as int, voice_id, channel, note, sample_offset).1,
                ended as int == choke_prefix(s0, i as int, voice_id, channel, note, sample_offset).1.len(),
                ended <= i,
            decreases NUM_VOICES - i,
        {
            proof {
                lemma_choke_prefix_shape(s0, i as int, voice_id, channel, note, sample_offset);
            }
            let v = self.voices[i];
            let matches = v.active && match voice_id {
                Some(id) => v.voice_id == id,
                None => v.channel == channel && v.note == note,
            };
            if matches && !(voice_id.is_some() && ended > 0) {
                events.push(
                    VoiceTerminated {
                        timing: sample_offset,
                        voice_id: v.voice_id,
                        channel: v.channel,
                        note: v.note,
                    },
                );
                self.voices.set(i, Voice { active: false, ..v });
                ended = ended + 1;
            }
            i = i + 1;
            proof {
                assert(events@ =~= old(events)@ + choke_prefix(s0, i as int, voice_id, channel, note, sample_offset).1);
            }
        }
        proof {
            lemma_choke_keeps_wf(s0, self.next_internal_voice_id, NUM_VOICES as int, voice_id, channel, note, sample_offset);
        }
    }

    /// Closes a rendered sub-block of `block_len` samples that ends at
    /// `block_end`: every active voice counts the samples, and those that
    /// reached their duration go silent and are reported at `block_end`, in
    /// slot order.
    pub fn finish_sub_block(&mut self, events: &mut Vec<VoiceTerminated>, block_len: usize, block_end: u32)
        requires
            old(self).wf(),
        ensures
            final(self).wf(),
            final(self).counter() == old(self).counter(),
            final(self).slots() == advanced_slots(old(self).slots(), block_len),
            final(events)@ == old(events)@ + retired(old(self).slots(), block_len, block_end),
    {
        let ghost s0 = self.voices@;
        let mut i: usize = 0;
        while i < self.voices.len()
            invariant
                self.voices@.len() == NUM_VOICES,
                s0.len() == NUM_VOICES,
                pool_wf(s0, self.next_internal_voice_id),
                self.next_internal_voice_id == old(self).counter(),
                i <= NUM_VOICES,
                forall|j: int| 0 <= j < i ==> #[trigger] self.voices@[j] == s0[j].advanced(block_len),
                forall|j: int| i <= j < NUM_VOICES ==> #[trigger] self.voices@[j] == s0[j],
                events@ == old(events)@ + retired_prefix(s0, i as int, block_len, block_end),
            decreases NUM_VOICES - i,
        {
            let v = self.voices[i];
            if v.active {
                let count = v.sample_count.saturating_add(block_len);
                let still = count < v.total_duration;
                self.voices.set(i, Voice { active: still, sample_count: count, ..v });
                if !still {
                    events.push(
                        VoiceTerminated {
                            timing: block_end,
                            voice_id: v.voice_id,
                            channel: v.channel,
                            note: v.note,
                        },
                    );
                }
            }
            i = i + 1;
            proof {
                assert(events@ =~= old(events)@ + retired_prefix(s0, i as int, block_len, block_end));
            }
        }
        proof {
            assert(self.voices@ =~= advanced_slots(s0, block_len));
            let t = self.voices@;
            assert forall|a: int, b: int|
                0 <= a < t.len() && 0 <= b < t.len() && a != b && #[trigger] t[a].active
                    && #[trigger] t[b].active implies t[a].internal_voice_id != t[b].internal_voice_id by {
                assert(s0[a].active && s0[b].active);
            }
            assert forall|a: int| 0 <= a < t.len() && #[trigger] t[a].active implies 1
                <= t[a].internal_voice_id <= self.next_internal_voice_id by {
                assert(s0[a].active);
            }
        }
    }

    /// Silences every voice and restarts the stamp counter.
    pub fn reset(&mut self)
        requires
            old(self).wf(),
        ensures
            final(self).wf(),
            final(self).counter() == 0,
            final(self).slots() == Seq::new(NUM_VOICES as nat, |i: int| Voice::idle()),
    {
        self.next_internal_voice_id = 0;
        let mut i: usize = 0;
        while i < self.voices.len()
            invariant
                self.voices@.len() == NUM_VOICES,
                self.next_internal_voice_id == 0,
                i <= NUM_VOICES,
                forall|j: int| 0 <= j < i ==> #[trigger] self.voices@[j] == Voice::idle(),
            decreases NUM_VOICES - i,
        {
            self.voices.set(i, Voice::new());
            i = i + 1;
        }
        assert(self.voices@ =~= Seq::new(NUM_VOICES as nat, |i: int| Voice::idle()));
    }
}

} // verus!
