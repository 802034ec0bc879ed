use pockyplocky::voice_manager::{
    compute_fallback_voice_id, Voice, VoiceManager, VoiceTerminated, NUM_VOICES,
};

fn ended(timing: u32, voice_id: i32, channel: u8, note: u8) -> VoiceTerminated {
    VoiceTerminated { timing, voice_id, channel, note }
}

#[test]
fn fallback_id_packs_note_and_channel() {
    assert_eq!(compute_fallback_voice_id(60, 0), 60);
    assert_eq!(compute_fallback_voice_id(60, 2), 60 | (2 << 16));
    assert_eq!(compute_fallback_voice_id(255, 255), 255 | (255 << 16));
}

#[test]
fn new_pool_is_idle() {
    let m = VoiceManager::new();
    assert_eq!(m.find_free_slot(), Some(0));
    assert_eq!(m.find_oldest_slot(), None);
    assert_eq!(m.internal_voice_counter(), 0);
    for slot in 0..NUM_VOICES {
        assert_eq!(m.voice(slot), Voice::new());
        assert_eq!(m.get_voice_info(slot), None);
    }
}

#[test]
fn sixteen_notes_fill_the_pool_in_order() {
    let mut m = VoiceManager::new();
    let mut events = Vec::new();
    for k in 0..16u8 {
        let slot = m.start_voice(&mut events, 0, Some(100 + k as i32), 0, 40 + k);
        assert_eq!(slot, k as usize);
    }
    assert!(events.is_empty());
    assert_eq!(m.find_free_slot(), None);
    let mut last = 0u64;
    for slot in 0..NUM_VOICES {
        let v = m.voice(slot);
        assert!(v.active);
        assert!(v.internal_voice_id > last);
        last = v.internal_voice_id;
        assert_eq!(m.get_voice_info(slot), Some((100 + slot as i32, 0, 40 + slot as u8)));
    }
    assert_eq!(m.find_oldest_slot(), Some(0));
}

#[test]
fn seventeenth_note_steals_the_oldest() {
    let mut m = VoiceManager::new();
    let mut events = Vec::new();
    for k in 0..16u8 {
        m.start_voice(&mut events, 0, Some(100 + k as i32), 0, 40 + k);
    }
    let slot = m.start_voice(&mut events, 33, Some(500), 1, 90);
    assert_eq!(slot, 0);
    assert_eq!(events, vec![ended(33, 100, 0, 40)]);
    let v = m.voice(0);
    assert!(v.active);
    assert_eq!((v.voice_id, v.channel, v.note), (500, 1, 90));
    assert_eq!(v.internal_voice_id, 17);
    // The next steal takes the voice that is now oldest, in slot 1.
    assert_eq!(m.find_oldest_slot(), Some(1));
    let slot = m.start_voice(&mut events, 40, None, 2, 91);
    assert_eq!(slot, 1);
    assert_eq!(events.len(), 2);
    assert_eq!(events[1], ended(40, 101, 0, 41));
    assert_eq!(m.voice(1).voice_id, compute_fallback_voice_id(91, 2));
}

#[test]
fn freed_slot_is_reused_before_stealing() {
    let mut m = VoiceManager::new();
    let mut events = Vec::new();
    for k in 0..16u8 {
        m.start_voice(&mut events, 0, Some(k as i32), 0, k);
    }
    m.choke_voices(&mut events, 5, Some(7), 0, 7);
    assert_eq!(events, vec![ended(5, 7, 0, 7)]);
    let slot = m.start_voice(&mut events, 6, Some(99), 0, 99);
    assert_eq!(slot, 7);
    assert_eq!(events.len(), 1);
}

#[test]
fn missing_voice_id_uses_fallback() {
    let mut m = VoiceManager::new();
    let mut events = Vec::new();
    let slot = m.start_voice(&mut events, 0, None, 3, 64);
    assert_eq!(m.get_voice_info(slot), Some((64 | (3 << 16), 3, 64)));
    // A choke that names the fallback id reaches the voice.
    m.choke_voices(&mut events, 9, Some(64 | (3 << 16)), 0, 0);
    assert_eq!(events, vec![ended(9, 64 | (3 << 16), 3, 64)]);
    assert_eq!(m.get_voice_info(slot), None);
}

#[test]
fn choke_by_id_ends_only_that_voice() {
    let mut m = VoiceManager::new();
    let mut events = Vec::new();
    // Three voices share channel 0 and note 60.
    m.start_voice(&mut events, 0, Some(1), 0, 60);
    m.start_voice(&mut events, 0, Some(2), 0, 60);
    m.start_voice(&mut events, 0, Some(3), 0, 60);
    m.choke_voices(&mut events, 12, Some(2), 0, 60);
    assert_eq!(events, vec![ended(12, 2, 0, 60)]);
    assert!(m.voice(0).active);
    assert!(!m.voice(1).active);
    assert!(m.voice(2).active);
}

#[test]
fn choke_by_unknown_id_changes_nothing() {
    let mut m = VoiceManager::new();
    let mut events = Vec::new();
    m.start_voice(&mut events, 0, Some(1), 0, 60);
    m.choke_voices(&mut events, 12, Some(42), 0, 60);
    assert!(events.is_empty());
    assert!(m.voice(0).active);
}

#[test]
fn choke_by_key_ends_all_matching() {
    let mut m = VoiceManager::new();
    let mut events = Vec::new();
    m.start_voice(&mut events, 0, Some(1), 0, 60);
    m.start_voice(&mut events, 0, Some(2), 1, 60);
    m.start_voice(&mut events, 0, Some(3), 0, 60);
    m.start_voice(&mut events, 0, Some(4), 0, 61);
    m.choke_voices(&mut events, 7, None, 0, 60);
    assert_eq!(events, vec![ended(7, 1, 0, 60), ended(7, 3, 0, 60)]);
    assert!(!m.voice(0).active);
    assert!(m.voice(1).active);
    assert!(!m.voice(2).active);
    assert!(m.voice(3).active);
}

#[test]
fn voice_lasting_one_hundred_samples_ends_at_boundary() {
    let mut m = VoiceManager::new();
    let mut events = Vec::new();
    let slot = m.start_voice(&mut events, 0, Some(5), 0, 60);
    m.start_lifetime(slot, 100);
    // Sub-blocks of 64 and 35 samples: 99 rendered, still sounding.
    m.finish_sub_block(&mut events, 64, 64);
    m.finish_sub_block(&mut events, 35, 99);
    assert!(events.is_empty());
    let v = m.voice(slot);
    assert!(v.active);
    assert_eq!(v.sample_count, 99);
    assert!(!v.is_finished());
    // The next boundary passes 100: the voice ends there.
    m.finish_sub_block(&mut events, 29, 128);
    assert_eq!(events, vec![ended(128, 5, 0, 60)]);
    let v = m.voice(slot);
    assert!(!v.active);
    assert!(v.is_finished());
    // Silent voices are not reported again.
    m.finish_sub_block(&mut events, 64, 64);
    assert_eq!(events.len(), 1);
}

#[test]
fn voice_of_exact_length_ends_on_that_boundary() {
    let mut m = VoiceManager::new();
    let mut events = Vec::new();
    let slot = m.start_voice(&mut events, 0, Some(5), 0, 60);
    m.start_lifetime(slot, 100);
    m.finish_sub_block(&mut events, 50, 50);
    m.finish_sub_block(&mut events, 50, 100);
    assert_eq!(events, vec![ended(100, 5, 0, 60)]);
}

#[test]
fn zero_length_voice_ends_after_first_sub_block() {
    let mut m = VoiceManager::new();
    let mut events = Vec::new();
    let slot = m.start_voice(&mut events, 0, Some(8), 0, 60);
    m.start_lifetime(slot, 0);
    assert!(m.voice(slot).is_finished());
    assert!(m.voice(slot).active);
    m.finish_sub_block(&mut events, 10, 10);
    assert_eq!(events, vec![ended(10, 8, 0, 60)]);
}

#[test]
fn retirements_are_reported_in_slot_order() {
    let mut m = VoiceManager::new();
    let mut events = Vec::new();
    for k in 0..3u8 {
        let slot = m.start_voice(&mut events, 0, Some(k as i32), 0, k);
        m.start_lifetime(slot, 10 + k as usize * 100);
    }
    m.finish_sub_block(&mut events, 64, 64);
    assert_eq!(events, vec![ended(64, 0, 0, 0)]);
    m.finish_sub_block(&mut events, 64, 128);
    assert_eq!(events.len(), 2);
    assert_eq!(events[1], ended(128, 1, 0, 1));
}

#[test]
fn sample_count_saturates() {
    let mut m = VoiceManager::new();
    let mut events = Vec::new();
    let slot = m.start_voice(&mut events, 0, Some(1), 0, 1);
    m.start_lifetime(slot, usize::MAX);
    for _ in 0..3 {
        m.finish_sub_block(&mut events, usize::MAX / 2, 64);
    }
    assert_eq!(events, vec![ended(64, 1, 0, 1)]);
    assert_eq!(m.voice(slot).sample_count, usize::MAX);
}

#[test]
fn reset_empties_pool_and_counter() {
    let mut m = VoiceManager::new();
    let mut events = Vec::new();
    for k in 0..20u8 {
        m.start_voice(&mut events, 0, None, 0, k);
    }
    assert_eq!(m.internal_voice_counter(), 20);
    m.reset();
    assert_eq!(m.internal_voice_counter(), 0);
    assert_eq!(m.find_free_slot(), Some(0));
    let slot = m.start_voice(&mut events, 0, None, 0, 1);
    assert_eq!(slot, 0);
    assert_eq!(m.voice(0).internal_voice_id, 1);
}

#[test]
fn init_and_deactivate_voice() {
    let mut m = VoiceManager::new();
    let mut events = Vec::new();
    m.start_voice(&mut events, 0, Some(1), 0, 1);
    m.start_voice(&mut events, 0, Some(2), 0, 2);
    m.deactivate_voice(0);
    assert_eq!(m.get_voice_info(0), None);
    assert_eq!(m.find_oldest_slot(), Some(1));
    m.init_voice(0, 77, 4, 5, 1);
    assert_eq!(m.get_voice_info(0), Some((77, 4, 5)));
    assert_eq!(m.find_oldest_slot(), Some(0));
}

#[test]
fn voice_reset_and_finish() {
    let mut v = Voice {
        active: true,
        voice_id: 3,
        channel: 1,
        note: 2,
        internal_voice_id: 9,
        total_duration: 10,
        sample_count: 9,
    };
    assert!(!v.is_finished());
    v.sample_count = 10;
    assert!(v.is_finished());
    v.reset();
    assert_eq!(v, Voice::new());
}
