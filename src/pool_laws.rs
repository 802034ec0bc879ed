use vstd::prelude::*;
use crate::voice_manager::{
    choke_hit, choke_prefix, choked, chosen_slot, first_free, has_free, is_first_free, is_oldest, is_oldest_in, lemma_first_free_unique,
    oldest, pool_wf, resolved_voice_id, start_events, started_slots, Voice, VoiceTerminated, NUM_VOICES,
};

verus! {

/// A note to start: the host's voice id, if any, then channel and note.
pub type NoteStart = (Option<i32>, u8, u8);

/// The slots and stamp counter after starting `notes` one after another.
pub open spec fn start_all(s: Seq<Voice>, counter: u64, notes: Seq<NoteStart>) -> (Seq<Voice>, u64)
    decreases notes.len(),
{
    if notes.len() == 0 {
        (s, counter)
    } else {
        let (t, c) = start_all(s, counter, notes.drop_last());
        let n = notes.last();
        (started_slots(t, c, n.0, n.1, n.2), (c + 1) as u64)
    }
}

pub open spec fn empty_pool() -> Seq<Voice> {
    Seq::new(NUM_VOICES as nat, |i: int| Voice::idle())
}

proof fn lemma_first_free_at(s: Seq<Voice>, k: int)
    requires
        is_first_free(s, k),
    ensures
        has_free(s),
        first_free(s) == k,
{
    assert(!s[k].active);
    lemma_first_free_unique(s, first_free(s), k);
}

/// Some active slot among the first `n` makes an oldest one exist there.
proof fn lemma_oldest_in_exists(s: Seq<Voice>, n: int, a: int)
    requires
        0 <= a < n <= s.len(),
        s[a].active,
    ensures
        exists|i: int| is_oldest_in(s, i, n),
    decreases n,
{
    let last = n - 1;
    if exists|b: int| 0 <= b < last && #[trigger] s[b].active {
        let b = choose|b: int| 0 <= b < last && #[trigger] s[b].active;
        lemma_oldest_in_exists(s, last, b);
        let i = choose|i: int| is_oldest_in(s, i, last);
        if s[last].active && s[last].internal_voice_id < s[i].internal_voice_id {
            assert(is_oldest_in(s, last, n));
        } else {
            assert(is_oldest_in(s, i, n));
        }
    } else {
        assert(a == last);
        assert(is_oldest_in(s, last, n));
    }
}

/// Starting up to sixteen notes on an empty pool fills the slots in order:
/// the k-th note takes slot k with stamp k + 1, so the stamps are unique and
/// strictly increasing, and the slots beyond stay free.
pub proof fn lemma_fill_in_order(notes: Seq<NoteStart>)
    requires
        notes.len() <= NUM_VOICES,
    ensures
        ({
            let (s, c) = start_all(empty_pool(), 0, notes);
            &&& pool_wf(s, c)
            &&& c == notes.len()
            &&& forall|i: int|
                0 <= i < notes.len() ==> {
                    &&& (#[trigger] s[i]).active
                    &&& s[i].internal_voice_id == i + 1
                    &&& s[i].voice_id == resolved_voice_id(notes[i].0, notes[i].1, notes[i].2)
                    &&& s[i].channel == notes[i].1
                    &&& s[i].note == notes[i].2
                }
            &&& forall|i: int| notes.len() <= i < NUM_VOICES ==> #[trigger] s[i] == Voice::idle()
        }),
    decreases notes.len(),
{
    if notes.len() > 0 {
        let prev = notes.drop_last();
        lemma_fill_in_order(prev);
        let (t, c) = start_all(empty_pool(), 0, prev);
        let k = prev.len() as int;
        assert(is_first_free(t, k)) by {
            assert(t[k] == Voice::idle());
            assert forall|j: int| 0 <= j < k implies #[trigger] t[j].active by {
                assert(prev[j] == notes[j]);
            }
        }
        lemma_first_free_at(t, k);
        let (s, c2) = start_all(empty_pool(), 0, notes);
        assert forall|i: int| 0 <= i < notes.len() implies {
            &&& (#[trigger] s[i]).active
            &&& s[i].internal_voice_id == i + 1
            &&& s[i].voice_id == resolved_voice_id(notes[i].0, notes[i].1, notes[i].2)
            &&& s[i].channel == notes[i].1
            &&& s[i].note == notes[i].2
        } by {
            if i < k {
                assert(prev[i] == notes[i]);
            }
        }
        assert forall|i: int, j: int|
            0 <= i < s.len() && 0 <= j < s.len() && i != j && #[trigger] s[i].active
                && #[trigger] s[j].active implies s[i].internal_voice_id != s[j].internal_voice_id by {
            if i >= notes.len() {
                assert(s[i] == Voice::idle());
            }
            if j >= notes.len() {
                assert(s[j] == Voice::idle());
            }
        }
        assert forall|i: int| 0 <= i < s.len() && #[trigger] s[i].active implies 1
            <= s[i].internal_voice_id <= c2 by {
            if i >= notes.len() {
                assert(s[i] == Voice::idle());
            }
        }
    }
}

/// When every slot is busy, a new note steals the voice with the smallest
/// stamp: exactly one end is reported, for that voice, and the new voice
/// takes its slot with a stamp above every other.
pub proof fn lemma_full_pool_steals_oldest(
    s: Seq<Voice>,
    counter: u64,
    voice_id: Option<i32>,
    channel: u8,
    note: u8,
    timing: u32,
)
    requires
        pool_wf(s, counter),
        !has_free(s),
        counter < u64::MAX,
    ensures
        ({
            let k = chosen_slot(s);
            let t = started_slots(s, counter, voice_id, channel, note);
            &&& 0 <= k < NUM_VOICES
            &&& s[k].active
            &&& forall|j: int| 0 <= j < NUM_VOICES ==> s[k].internal_voice_id <= (#[trigger] s[j]).internal_voice_id
            &&& start_events(s, timing) == seq![s[k].termination(timing)]
            &&& t[k].active && t[k].internal_voice_id == counter + 1
            &&& forall|j: int| 0 <= j < NUM_VOICES && j != k ==> #[trigger] t[j] == s[j]
            &&& pool_wf(t, (counter + 1) as u64)
        }),
{
    assert(s[0].active);
    lemma_oldest_in_exists(s, NUM_VOICES as int, 0);
    let w = choose|i: int| is_oldest_in(s, i, NUM_VOICES as int);
    assert(is_oldest(s, w));
    let k = oldest(s);
    assert(is_oldest(s, k));
    assert forall|j: int| 0 <= j < NUM_VOICES implies s[k].internal_voice_id <= (#[trigger] s[j]).internal_voice_id by {
        assert(s[j].active);
    }
    let t = started_slots(s, counter, voice_id, channel, note);
    assert forall|i: int, j: int|
        0 <= i < t.len() && 0 <= j < t.len() && i != j && #[trigger] t[i].active
            && #[trigger] t[j].active implies t[i].internal_voice_id != t[j].internal_voice_id by {
        if i != k {
            assert(s[i].active);
        }
        if j != k {
            assert(s[j].active);
        }
    }
    assert forall|i: int| 0 <= i < t.len() && #[trigger] t[i].active implies 1 <= t[i].internal_voice_id
        <= counter + 1 by {
        if i != k {
            assert(s[i].active);
        }
    }
}

/// `k` is the first slot that a choke request targets.
pub open spec fn is_first_hit(s: Seq<Voice>, k: int, voice_id: Option<i32>, channel: u8, note: u8) -> bool {
    &&& 0 <= k < s.len()
    &&& choke_hit(s[k], voice_id, channel, note)
    &&& forall|j: int| 0 <= j < k ==> !choke_hit(#[trigger] s[j], voice_id, channel, note)
}

proof fn lemma_choke_id_prefix(s: Seq<Voice>, n: int, id: i32, channel: u8, note: u8, timing: u32)
    requires
        0 <= n <= s.len(),
    ensures
        (forall|j: int| 0 <= j < n ==> !choke_hit(#[trigger] s[j], Some(id), channel, note))
            ==> choke_prefix(s, n, Some(id), channel, note, timing) == (s, Seq::<VoiceTerminated>::empty()),
        forall|k: int|
            0 <= k < n && #[trigger] is_first_hit(s, k, Some(id), channel, note) ==> choke_prefix(
                s,
                n,
                Some(id),
                channel,
                note,
                timing,
            ) == (s.update(k, Voice { active: false, ..s[k] }), seq![s[k].termination(timing)]),
    decreases n,
{
    if n > 0 {
        lemma_choke_id_prefix(s, n - 1, id, channel, note, timing);
        assert forall|k: int|
            0 <= k < n && #[trigger] is_first_hit(s, k, Some(id), channel, note) implies choke_prefix(
            s,
            n,
            Some(id),
            channel,
            note,
            timing,
        ) == (s.update(k, Voice { active: false, ..s[k] }), seq![s[k].termination(timing)]) by {
            if k == n - 1 {
                assert(forall|j: int| 0 <= j < n - 1 ==> !choke_hit(#[trigger] s[j], Some(id), channel, note));
                assert(seq![].push(s[k].termination(timing)) =~= seq![s[k].termination(timing)]);
            }
        }
    }
}

/// A choke request that names a voice id ends exactly one voice, the first
/// active one carrying that id, and no other, whatever channel and note the
/// others share with it; with no such voice it changes nothing.
pub proof fn lemma_choke_by_id(s: Seq<Voice>, id: i32, channel: u8, note: u8, timing: u32)
    ensures
        (forall|j: int| 0 <= j < s.len() ==> !choke_hit(#[trigger] s[j], Some(id), channel, note))
            ==> choked(s, Some(id), channel, note, timing).0 == s
            && choked(s, Some(id), channel, note, timing).1.len() == 0,
        forall|k: int|
            #[trigger] is_first_hit(s, k, Some(id), channel, note) ==> {
                &&& s[k].active && s[k].voice_id == id
                &&& choked(s, Some(id), channel, note, timing).0 == s.update(
                    k,
                    Voice { active: false, ..s[k] },
                )
                &&& choked(s, Some(id), channel, note, timing).1 == seq![s[k].termination(timing)]
            },
{
    lemma_choke_id_prefix(s, s.len() as int, id, channel, note, timing);
}

/// Report of a voice that a choke by channel and note ends.
pub open spec fn key_report(channel: u8, note: u8, timing: u32) -> spec_fn(Voice) -> Option<VoiceTerminated> {
    |v: Voice|
        if choke_hit(v, None, channel, note) {
            Some(v.termination(timing))
        } else {
            None
        }
}

/// A slot after a choke by channel and note.
pub open spec fn key_choked_voice(v: Voice, channel: u8, note: u8) -> Voice {
    if choke_hit(v, None, channel, note) {
        Voice { active: false, ..v }
    } else {
        v
    }
}

proof fn lemma_choke_key_prefix(s: Seq<Voice>, n: int, channel: u8, note: u8, timing: u32)
    requires
        0 <= n <= s.len(),
    ensures
        choke_prefix(s, n, None, channel, note, timing).0 == Seq::new(
            s.len(),
            |i: int|
                if i < n {
                    key_choked_voice(s[i], channel, note)
                } else {
                    s[i]
                },
        ),
        choke_prefix(s, n, None, channel, note, timing).1 == s.take(n).filter_map(
            key_report(channel, note, timing),
        ),
    decreases n,
{
    if n > 0 {
        lemma_choke_key_prefix(s, n - 1, channel, note, timing);
        assert(s.take(n).drop_last() =~= s.take(n - 1));
        assert(s.take(n).last() == s[n - 1]);
        assert(choke_prefix(s, n, None, channel, note, timing).0 =~= Seq::new(
            s.len(),
            |i: int|
                if i < n {
                    key_choked_voice(s[i], channel, note)
                } else {
                    s[i]
                },
        ));
        let ev = choke_prefix(s, n - 1, None, channel, note, timing).1;
        if choke_hit(s[n - 1], None, channel, note) {
            assert(ev.push(s[n - 1].termination(timing)) =~= ev + seq![s[n - 1].termination(timing)]);
        }
    } else {
        assert(choke_prefix(s, n, None, channel, note, timing).0 =~= Seq::new(
            s.len(),
            |i: int|
                if i < n {
                    key_choked_voice(s[i], channel, note)
                } else {
                    s[i]
                },
        ));
    }
}

/// A choke request without a voice id ends every active voice of the given
/// channel and note, and only those, reporting each in slot order.
pub proof fn lemma_choke_by_key(s: Seq<Voice>, channel: u8, note: u8, timing: u32)
    ensures
        choked(s, None, channel, note, timing).0 == Seq::new(
            s.len(),
            |i: int| key_choked_voice(s[i], channel, note),
        ),
        choked(s, None, channel, note, timing).1 == s.filter_map(key_report(channel, note, timing)),
{
    lemma_choke_key_prefix(s, s.len() as int, channel, note, timing);
    assert(s.take(s.len() as int) =~= s);
    assert(choked(s, None, channel, note, timing).0 =~= Seq::new(
        s.len(),
        |i: int| key_choked_voice(s[i], channel, note),
    ));
}

/// Total length of a run of sub-blocks.
pub open spec fn total_len(lens: Seq<usize>) -> int
    decreases lens.len(),
{
    if lens.len() == 0 {
        0
    } else {
        total_len(lens.drop_last()) + lens.last()
    }
}

/// A voice after sub-blocks of the given lengths were rendered, in order.
pub open spec fn after_blocks(v: Voice, lens: Seq<usize>) -> Voice
    decreases lens.len(),
{
    if lens.len() == 0 {
        v
    } else {
        after_blocks(v, lens.drop_last()).advanced(lens.last())
    }
}

/// A voice armed to last `d` samples stays active through every sub-block
/// boundary at which fewer than `d` samples have been rendered, counting them,
/// and goes silent at the first boundary at or after `d` samples; it is
/// reported at that boundary, being active before it and silent after.
pub proof fn lemma_natural_termination(v: Voice, lens: Seq<usize>)
    requires
        v.active,
        v.sample_count == 0,
        total_len(lens) <= usize::MAX,
    ensures
        after_blocks(v, lens).total_duration == v.total_duration,
        lens.len() > 0 ==> (after_blocks(v, lens).active <==> total_len(lens) < v.total_duration),
        after_blocks(v, lens).active ==> after_blocks(v, lens).sample_count == total_len(lens),
        lens.len() > 0 && !after_blocks(v, lens).active ==> (after_blocks(v, lens.drop_last()).active
            <==> (lens.len() == 1 || total_len(lens.drop_last()) < v.total_duration)),
    decreases lens.len(),
{
    if lens.len() > 0 {
        let prefix = lens.drop_last();
        assert(total_len(prefix) <= total_len(lens));
        lemma_natural_termination(v, prefix);
        let w = after_blocks(v, prefix);
        if prefix.len() == 0 {
            assert(w == v);
            assert(total_len(prefix) == 0);
        }
        assert(after_blocks(v, lens) == w.advanced(lens.last()));
        assert(total_len(lens) == total_len(prefix) + lens.last());
        if w.active {
            assert(w.sample_count == total_len(prefix));
            assert(w.sample_count.saturating_add(lens.last()) == total_len(lens));
        } else {
            assert(total_len(prefix) >= v.total_duration);
        }
    }
}

} // verus!
