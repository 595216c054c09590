//! Regions and engines at work on events, without any audio.

use std::convert::TryFrom;

use soundfonts::decimal::Decimal;
use soundfonts::engine::{random_draw, Event};
use soundfonts::envelopes::State;
use soundfonts::sample::FRAME;
use soundfonts::sfz::engine::{Engine, EngineError, Measures, Region, RegionData, Trigger};
use soundfonts::sfz::parser::parse_sfz_text;

fn measures(frames: usize) -> Measures {
    Measures {
        frames,
        pitch_steps: (0..128).map(|note| FRAME + note).collect(),
        audible_release_frames: usize::MAX,
    }
}

fn region(rd: RegionData) -> Region {
    Region::new(rd, measures(1000), 1, 4).unwrap()
}

fn region_of(text: &str) -> Region {
    region(parse_sfz_text(format!("<region> {}", text)).unwrap().remove(0))
}

fn engine_of(text: &str) -> Engine {
    let regions = parse_sfz_text(text.to_string()).unwrap();
    Engine::from_region_array(regions.into_iter().map(|rd| (rd, measures(1000))).collect(), 1, 4).unwrap()
}

fn draw(text: &str) -> Decimal {
    Decimal::parse_str(text).unwrap()
}

fn zero() -> Decimal {
    Decimal::new(0)
}

fn groups(engine: &mut Engine, event: Event, draw: Decimal) -> Vec<u32> {
    engine.event_with_random(event, draw);
    engine.activated_groups.clone()
}

fn playing(engine: &Engine) -> Vec<bool> {
    engine.regions.iter().map(|r| r.sample.voices.iter().any(|v| !v.envelope_state.is_releasing())).collect()
}

#[test]
fn a_fresh_region() {
    let r = region(RegionData::default());
    assert!(!r.is_playing());
    assert_eq!(r.last_note_on, None);
    assert_eq!(r.time_since_note_on, 0);
    assert!(!r.sustain_pedal_pushed);
    assert!(!r.once_immune_against_group_events);
    assert!(r.other_notes_on.iter().all(|held| !held));
    assert!(r.notes_for_release_trigger.iter().all(|held| !held));
    assert_eq!(r.sample.frames, 1000);
    assert_eq!(r.sample.max_block_length, 4);
    assert_eq!(r.sample.buffer_frames, 1008);
    assert_eq!(r.sample.envelope.attack_decay_frames, 4);
    assert_eq!(r.sample.envelope.release_frames, 4);
    assert_eq!(r.sample.envelope.audible_release_frames, 4);
}

#[test]
fn no_region_from_what_is_out_of_bounds() {
    let mut short = measures(10);
    short.pitch_steps.pop();
    assert!(Region::new(RegionData::default(), short, 1, 4).is_none());

    assert!(Region::new(RegionData::default(), measures(10), 1, 0).is_none());
    assert!(Region::new(RegionData::default(), measures(0x1_0000_0000), 1, 4).is_none());

    let mut rd = RegionData::default();
    rd.tune = Decimal::from_int(5);
    assert!(!rd.is_wf());
    assert!(Region::new(rd, measures(10), 1, 4).is_none());

    let mut rd = RegionData::default();
    rd.on_ccs[100].lo = Some(200);
    assert!(Region::new(rd, measures(10), 1, 4).is_none());

    let mut rd = RegionData::default();
    rd.key_range.lo = Some(70);
    rd.key_range.hi = Some(60);
    assert!(Region::new(rd, measures(10), 1, 4).is_none());

    let mut rd = RegionData::default();
    rd.ampeg.attack = Decimal::from_int(101);
    assert!(Region::new(rd, measures(10), 1, 4).is_none());

    assert!(Region::new(RegionData::default(), measures(10), 1, 4).is_some());
}

#[test]
fn no_engine_from_a_region_out_of_bounds() {
    let good = || (RegionData::default(), measures(10));
    let mut bad = good();
    bad.1.pitch_steps.clear();
    match Engine::from_region_array(vec![good(), bad, good()], 1, 4) {
        Err(EngineError::RegionError(index)) => assert_eq!(index, 1),
        _ => panic!("Not seen expected error"),
    }
    match Engine::from_region_array(vec![good(), good()], 1, 0) {
        Err(e) => assert_eq!(e.message(), "Parameters or sample out of bounds in region 0"),
        _ => panic!("Not seen expected error"),
    }

    let engine = Engine::from_region_array(vec![good(), good()], 1, 4).unwrap();
    assert_eq!(engine.regions.len(), 2);
    assert_eq!(engine.max_block_length, 4);
    assert!(engine.activated_groups.is_empty());
    assert!(engine.fade_out_finished());

    let engine = Engine::from_region_array(Vec::new(), 1, 0).unwrap();
    assert_eq!(engine.regions.len(), 0);
}

#[test]
fn a_note_sounds_at_its_pitch_step() {
    let mut r = region(RegionData::default());
    assert!(r.pass_event(Event::NoteOn(60, 100), zero()));
    assert!(r.pass_event(Event::NoteOn(72, 1), zero()));
    assert_eq!(r.sample.voices.len(), 2);
    assert_eq!(r.sample.voices[0].note, 60);
    assert_eq!(r.sample.voices[0].step, FRAME + 60);
    assert_eq!(r.sample.voices[0].strike.velocity, 100);
    assert_eq!(r.sample.voices[0].strike.elapsed, 0);
    assert_eq!(r.sample.voices[1].step, FRAME + 72);
    assert_eq!(r.sample.voices[1].strike.velocity, 1);
}

#[test]
fn a_held_note_is_not_struck_again() {
    let mut r = region(RegionData::default());
    assert!(r.pass_event(Event::NoteOn(60, 100), zero()));
    assert!(!r.pass_event(Event::NoteOn(60, 90), zero()));
    assert_eq!(r.sample.voices.len(), 1);

    assert!(!r.pass_event(Event::NoteOff(60, 0), zero()));
    assert!(r.pass_event(Event::NoteOn(60, 90), zero()));
    assert_eq!(r.sample.voices.len(), 2);
    assert_eq!(r.sample.voices[0].envelope_state, State::Release(0));
    assert_eq!(r.sample.voices[1].strike.velocity, 90);
}

#[test]
fn events_that_are_no_events() {
    let mut r = region(RegionData::default());
    r.once_immune_against_group_events = true;
    assert!(!r.pass_event(Event::Other, zero()));
    assert!(!r.once_immune_against_group_events);

    for event in [Event::NoteOn(128, 100), Event::NoteOn(60, 128), Event::NoteOff(200, 0), Event::NoteOff(0, 255), Event::ControlChange(128, 0), Event::ControlChange(64, 128)] {
        assert!(!event.is_wf());
        r.once_immune_against_group_events = true;
        assert!(!r.pass_event(event, zero()));
        assert!(!r.once_immune_against_group_events);
        assert!(!r.is_playing());
        assert!(!r.sustain_pedal_pushed);
        assert!(r.other_notes_on.iter().all(|held| !held));
    }
    assert!(Event::NoteOn(127, 127).is_wf() && Event::ControlChange(0, 0).is_wf() && Event::Other.is_wf());
}

#[test]
fn messages_are_taken_as_their_events() {
    let mut r = region_of("on_locc7=10 on_hicc7=20");
    let note = wmidi::Note::try_from(61).unwrap();
    let velocity = wmidi::Velocity::try_from(33).unwrap();
    assert!(r.pass_midi_msg(&wmidi::MidiMessage::NoteOn(wmidi::Channel::Ch5, note, velocity), zero()));
    assert_eq!(r.sample.voices[0].note, 61);
    assert_eq!(r.sample.voices[0].strike.velocity, 33);

    assert!(!r.pass_midi_msg(&wmidi::MidiMessage::NoteOff(wmidi::Channel::Ch5, note, velocity), zero()));
    assert_eq!(r.sample.voices[0].envelope_state, State::Release(0));

    let number = wmidi::ControlNumber::try_from(7).unwrap();
    let value = wmidi::ControlValue::try_from(15).unwrap();
    assert!(r.pass_midi_msg(&wmidi::MidiMessage::ControlChange(wmidi::Channel::Ch1, number, value), zero()));
    assert_eq!(r.sample.voices[1].note, 60);
    assert_eq!(r.sample.voices[1].strike.velocity, 127);

    assert!(!r.pass_midi_msg(&wmidi::MidiMessage::ProgramChange(wmidi::Channel::Ch1, value), zero()));
    assert!(!r.pass_midi_msg(&wmidi::MidiMessage::TuneRequest, zero()));
    assert_eq!(r.sample.voices.len(), 2);
}

#[test]
fn velocity_zero_is_a_note_off() {
    for text in ["", "trigger=release", "lokey=70", "trigger=release_key lovel=50"] {
        let mut by_note_on = region_of(text);
        let mut by_note_off = region_of(text);
        for r in [&mut by_note_on, &mut by_note_off] {
            r.pass_event(Event::NoteOn(60, 100), zero());
            r.process(3);
        }
        let a = by_note_on.pass_event(Event::NoteOn(60, 0), draw("0.9"));
        let b = by_note_off.pass_event(Event::NoteOff(60, 77), draw("0.1"));
        assert_eq!(a, b);
        assert_eq!(format!("{:?}", by_note_on), format!("{:?}", by_note_off));
    }
}

#[test]
fn the_random_range_decides() {
    let fires = |d: &str| region_of("lorand=0.25 hirand=0.75").pass_event(Event::NoteOn(60, 100), draw(d));
    assert!(!fires("0"));
    assert!(!fires("0.249999999"));
    assert!(fires("0.25"));
    assert!(fires("0.5"));
    assert!(fires("0.749999999"));
    assert!(!fires("0.75"));
    assert!(!fires("0.999999999"));

    let always = |d: &str| region_of("lorand=0.5 hirand=0.5").pass_event(Event::NoteOn(60, 100), draw(d));
    assert!(always("0") && always("0.5") && always("0.999999999"));

    let mut by_controller = region_of("lorand=0.25 hirand=0.75 on_locc1=0 on_hicc1=127");
    assert!(by_controller.pass_event(Event::ControlChange(1, 5), draw("0.9")));
}

#[test]
fn the_random_range_comes_after_the_key_range() {
    let mut r = region_of("lokey=60 hikey=60 lorand=0.25 hirand=0.75 trigger=legato");
    assert!(!r.pass_event(Event::NoteOn(50, 100), draw("0.9")));
    assert!(r.other_notes_on[50]);
    assert!(r.pass_event(Event::NoteOn(60, 100), draw("0.5")));
}

#[test]
fn a_disabled_key_range_leaves_the_controllers() {
    let mut r = region_of("lokey=-1 hikey=-1 on_locc64=126 on_hicc64=127");
    for note in 0..128u8 {
        assert!(!r.pass_event(Event::NoteOn(note, 100), zero()));
        assert!(!r.is_playing());
        assert!(!r.pass_event(Event::NoteOff(note, 0), zero()));
        assert!(!r.is_playing());
    }
    assert!(!r.pass_event(Event::ControlChange(64, 125), zero()));
    assert!(r.pass_event(Event::ControlChange(64, 126), zero()));
    assert!(r.is_playing_note(60));

    let mut r = region_of("lokey=-1");
    assert!(!r.pass_event(Event::NoteOn(60, 100), zero()));
    assert!(!r.is_playing());
}

#[test]
fn notes_outside_the_key_range_are_remembered() {
    let mut r = region_of("lokey=60 hikey=62");
    r.pass_event(Event::NoteOn(59, 100), zero());
    r.pass_event(Event::NoteOn(63, 100), zero());
    assert!(r.other_notes_on[59] && r.other_notes_on[63]);
    assert_eq!(r.other_notes_on.iter().filter(|held| **held).count(), 2);
    r.pass_event(Event::NoteOff(59, 0), zero());
    assert!(!r.other_notes_on[59] && r.other_notes_on[63]);
    r.pass_event(Event::NoteOn(63, 0), zero());
    assert!(r.other_notes_on.iter().all(|held| !held));
    assert!(!r.is_playing());
}

#[test]
fn a_release_hands_on_the_time_since_the_last_note() {
    let mut r = region_of("trigger=release");
    assert!(!r.pass_event(Event::NoteOn(60, 100), zero()));
    assert_eq!(r.last_note_on, Some((60, 100)));
    r.process(3);
    r.process(4);
    assert_eq!(r.time_since_note_on, 7);
    assert!(r.pass_event(Event::NoteOff(60, 0), zero()));
    assert_eq!(r.time_since_note_on, 0);
    assert_eq!(r.sample.voices[0].strike.elapsed, 7);
    assert_eq!(r.sample.voices[0].strike.velocity, 100);

    r.process(2);
    assert!(r.pass_event(Event::NoteOff(61, 0), zero()));
    assert_eq!(r.sample.voices.last().unwrap().note, 60);
    assert_eq!(r.sample.voices.last().unwrap().strike.elapsed, 2);

    let mut r = region_of("trigger=attack");
    r.process(4);
    assert!(r.pass_event(Event::NoteOn(60, 100), zero()));
    assert_eq!(r.sample.voices[0].strike.elapsed, 0);
    assert_eq!(r.time_since_note_on, 0);
}

#[test]
fn the_time_since_the_last_note_stops_at_the_largest_number() {
    let mut r = region(RegionData::default());
    r.time_since_note_on = u64::MAX - 2;
    r.process(4);
    assert_eq!(r.time_since_note_on, u64::MAX);
}

#[test]
fn the_pedal_holds_the_notes() {
    let mut r = region(RegionData::default());
    r.pass_event(Event::NoteOn(60, 100), zero());
    r.pass_event(Event::NoteOn(62, 100), zero());
    r.pass_event(Event::NoteOn(64, 100), zero());
    assert!(!r.pass_event(Event::ControlChange(64, 64), zero()));
    assert!(r.sustain_pedal_pushed);
    r.pass_event(Event::NoteOff(60, 0), zero());
    r.pass_event(Event::NoteOff(64, 0), zero());
    assert!(r.notes_for_release_trigger[60] && r.notes_for_release_trigger[64] && !r.notes_for_release_trigger[62]);
    assert!(r.sample.voices.iter().all(|v| !v.envelope_state.is_releasing()));

    assert!(!r.pass_event(Event::ControlChange(64, 63), zero()));
    assert!(!r.sustain_pedal_pushed);
    assert!(r.notes_for_release_trigger.iter().all(|held| !held));
    assert_eq!(r.sample.voices[0].envelope_state, State::Release(0));
    assert_eq!(r.sample.voices[1].envelope_state, State::AttackDecay(0));
    assert_eq!(r.sample.voices[2].envelope_state, State::Release(0));
}

#[test]
fn the_pedal_sounds_a_release() {
    let mut r = region_of("trigger=release");
    assert!(!r.pass_event(Event::ControlChange(64, 0), zero()));
    r.pass_event(Event::NoteOn(60, 100), zero());
    assert!(!r.pass_event(Event::ControlChange(64, 127), zero()));
    assert!(r.pass_event(Event::ControlChange(64, 0), zero()));
    assert!(r.is_playing_note(60));

    let mut r = region_of("trigger=release_key");
    r.pass_event(Event::NoteOn(60, 100), zero());
    r.pass_event(Event::ControlChange(64, 127), zero());
    assert!(!r.pass_event(Event::ControlChange(64, 0), zero()));
    assert!(!r.is_playing());
}

#[test]
fn a_controller_sounds_the_key_centre() {
    let mut r = region_of("pitch_keycenter=40 on_locc64=0 on_hicc64=10 on_locc1=5 on_hicc1=5");
    assert!(!r.pass_event(Event::ControlChange(1, 4), zero()));
    assert!(r.pass_event(Event::ControlChange(1, 5), zero()));
    assert_eq!(r.sample.voices[0].note, 40);
    assert_eq!(r.sample.voices[0].step, FRAME + 40);
    assert_eq!(r.sample.voices[0].strike.velocity, 127);
    assert!(!r.pass_event(Event::ControlChange(2, 5), zero()));
    assert!(r.pass_event(Event::ControlChange(64, 3), zero()));
    assert_eq!(r.sample.voices.len(), 2);
    assert_eq!(r.sample.voices[0].envelope_state, State::Release(0));
}

#[test]
fn first_and_legato() {
    let mut first = region_of("lokey=60 hikey=60 trigger=first");
    let mut legato = region_of("lokey=60 hikey=60 trigger=legato");
    assert!(first.pass_event(Event::NoteOn(60, 100), zero()));
    assert!(!legato.pass_event(Event::NoteOn(60, 100), zero()));

    for r in [&mut first, &mut legato] {
        r.pass_event(Event::NoteOff(60, 0), zero());
        r.pass_event(Event::NoteOn(10, 100), zero());
        r.pass_event(Event::NoteOn(127, 100), zero());
    }
    assert!(!first.pass_event(Event::NoteOn(60, 100), zero()));
    assert!(legato.pass_event(Event::NoteOn(60, 100), zero()));

    for r in [&mut first, &mut legato] {
        r.pass_event(Event::NoteOff(60, 0), zero());
        r.pass_event(Event::NoteOff(10, 0), zero());
        r.pass_event(Event::NoteOff(127, 0), zero());
    }
    assert!(first.pass_event(Event::NoteOn(60, 100), zero()));
    assert!(!legato.pass_event(Event::NoteOn(60, 100), zero()));
}

#[test]
fn groups_of_a_region() {
    let mut r = region_of("group=3 off_by=4");
    assert_eq!(r.off_by(), 4);
    assert!(!r.once_immune_against_group_events);
    assert_eq!(r.group(), 3);
    assert!(r.once_immune_against_group_events);
    r.pass_event(Event::NoteOn(60, 100), zero());
    assert!(!r.once_immune_against_group_events);

    for (group, silenced) in [(1, false), (0, false), (3, true), (4, true)] {
        let mut r = region_of("group=3 off_by=4");
        r.pass_event(Event::NoteOn(60, 100), zero());
        r.group_activated(group);
        assert_eq!(r.sample.voices[0].envelope_state.is_releasing(), silenced);
    }

    let mut r = region_of("group=3 off_by=4");
    r.pass_event(Event::NoteOn(60, 100), zero());
    r.group();
    r.group_activated(3);
    r.group_activated(4);
    assert!(!r.sample.voices[0].envelope_state.is_releasing());

    let mut r = region(RegionData::default());
    r.pass_event(Event::NoteOn(60, 100), zero());
    r.group_activated(0);
    assert!(!r.sample.voices[0].envelope_state.is_releasing());
}

#[test]
fn one_group_for_each_region_that_sounds() {
    let text = "<region> key=60 group=1 <region> key=60 <region> key=60 group=2 <region> key=61 group=3 <region> key=60 group=1";
    let mut engine = engine_of(text);
    assert_eq!(groups(&mut engine, Event::NoteOn(60, 100), zero()), vec![1, 2, 1]);
    assert_eq!(playing(&engine), [true, true, true, false, true]);

    assert_eq!(groups(&mut engine, Event::NoteOn(61, 100), zero()), vec![3]);
    assert_eq!(groups(&mut engine, Event::NoteOn(62, 100), zero()), Vec::<u32>::new());
    assert_eq!(groups(&mut engine, Event::NoteOff(60, 0), zero()), Vec::<u32>::new());
    assert_eq!(groups(&mut engine, Event::Other, zero()), Vec::<u32>::new());
    assert_eq!(playing(&engine), [false, false, false, true, false]);
}

#[test]
fn a_group_silences_its_other_regions() {
    let text = "<region> key=60 group=1 <region> key=61 group=1 <region> key=62 off_by=1 <region> key=63 group=2 off_by=5";
    let mut engine = engine_of(text);
    engine.event_with_random(Event::NoteOn(61, 100), zero());
    engine.event_with_random(Event::NoteOn(62, 100), zero());
    engine.event_with_random(Event::NoteOn(63, 100), zero());
    assert_eq!(playing(&engine), [false, true, true, true]);

    assert_eq!(groups(&mut engine, Event::NoteOn(60, 100), zero()), vec![1]);
    assert_eq!(playing(&engine), [true, false, false, true]);
    assert!(engine.regions[0].once_immune_against_group_events);
    assert!(engine.regions.iter().skip(1).all(|r| !r.once_immune_against_group_events));
}

#[test]
fn regions_that_sound_together_spare_each_other() {
    let text = "<region> key=60 group=1 off_by=2 <region> key=60 group=2 off_by=1";
    let mut engine = engine_of(text);
    assert_eq!(groups(&mut engine, Event::NoteOn(60, 100), zero()), vec![1, 2]);
    assert_eq!(playing(&engine), [true, true]);
}

#[test]
fn one_draw_for_all_regions() {
    let text = "<region> lorand=0 hirand=0.5 <region> lorand=0.5 hirand=1";
    for d in ["0", "0.25", "0.499999999", "0.5", "0.75", "0.999999999"] {
        let mut engine = engine_of(text);
        engine.event_with_random(Event::NoteOn(60, 100), draw(d));
        let low = d < "0.5";
        assert_eq!(playing(&engine), [low, !low]);
    }
    for _ in 0..50 {
        let mut engine = engine_of(text);
        engine.event(Event::NoteOn(60, 100));
        let sounding = playing(&engine);
        assert!(sounding[0] ^ sounding[1]);
    }
}

#[test]
fn draws_lie_in_the_unit_interval() {
    let draws: Vec<i64> = (0..1000).map(|_| random_draw().billionths).collect();
    assert!(draws.iter().all(|d| 0 <= *d && *d < 1_000_000_000));
    assert!(draws.iter().any(|d| *d != draws[0]));
}

#[test]
fn an_engine_takes_messages() {
    let mut engine = engine_of("<region> key=60 group=9 <region> key=61");
    let on = wmidi::MidiMessage::NoteOn(wmidi::Channel::Ch1, wmidi::Note::C3, wmidi::Velocity::MAX);
    let off = wmidi::MidiMessage::NoteOff(wmidi::Channel::Ch1, wmidi::Note::C3, wmidi::Velocity::MAX);
    engine.midi_event_with_random(&on, zero());
    assert_eq!(engine.activated_groups, vec![9]);
    assert_eq!(playing(&engine), [true, false]);
    engine.midi_event(&off);
    assert_eq!(playing(&engine), [false, false]);
    engine.midi_event(&on);
    assert_eq!(playing(&engine), [true, false]);
}

#[test]
fn an_engine_plays_every_region() {
    let mut engine = engine_of("<region> key=60 <region> key=61 <region> key=60");
    engine.event_with_random(Event::NoteOn(60, 100), zero());
    engine.process(3);
    assert_eq!(engine.regions[0].sample.rendered.len(), 1);
    assert_eq!(engine.regions[1].sample.rendered.len(), 0);
    assert_eq!(engine.regions[2].sample.rendered.len(), 1);
    assert_eq!(engine.regions[0].sample.rendered[0].position, 0);
    assert_eq!(engine.regions[0].sample.voices[0].position, 3 * (FRAME + 60));
    assert_eq!(engine.regions[2].sample.voices[0].position, 3 * (FRAME + 60));
    assert_eq!(engine.regions[1].time_since_note_on, 3);

    engine.process(0);
    assert_eq!(engine.regions[0].sample.rendered[0].position, 3 * (FRAME + 60));
}

#[test]
fn fading_out() {
    let mut engine = engine_of("<region> ampeg_release=3 <region> ampeg_release=5 key=60 <region> trigger=release ampeg_release=7");
    assert!(engine.fade_out_finished());
    engine.event_with_random(Event::NoteOn(60, 100), zero());
    engine.event_with_random(Event::NoteOn(61, 100), zero());
    engine.event_with_random(Event::NoteOff(61, 100), zero());
    engine.process(4);
    assert!(!engine.fade_out_finished());
    assert_eq!(playing(&engine), [true, true, true]);

    engine.fade_out();
    assert_eq!(playing(&engine), [false, false, false]);
    assert!(!engine.fade_out_finished());

    let longest = engine.regions.iter().map(|r| r.sample.envelope.release_frames).max().unwrap();
    assert_eq!(longest, 20);
    let mut blocks = 0;
    while !engine.fade_out_finished() {
        engine.process(3);
        blocks += 1;
        assert!(blocks * 3 < longest + 3);
    }
    assert_eq!(blocks, 6);
}

#[test]
fn engine_errors() {
    let parse = parse_sfz_text("<region> hivel=300".to_string()).unwrap_err();
    assert_eq!(EngineError::ParserError(parse).message(), "hivel out of range: 0 <= 300 <= 127");
    assert_eq!(EngineError::SndFileError("UnrecognisedFormat".to_string()).message(), "UnrecognisedFormat");
    assert_eq!(
        EngineError::UnspecifiedSndFileError("piano/c4.wav".to_string()).message(),
        "Unspecified error from sndfile while reading piano/c4.wav"
    );
    assert_eq!(EngineError::RegionError(12).message(), "Parameters or sample out of bounds in region 12");
    let io = std::io::Error::new(std::io::ErrorKind::NotFound, "no such instrument");
    assert_eq!(EngineError::IOError(io).message(), "no such instrument");
}

#[test]
fn triggers_by_default() {
    assert_eq!(Trigger::default(), Trigger::Attack);
    assert_eq!(RegionData::default().trigger, Trigger::Attack);
    assert_eq!(RegionData::default().pitch_keycenter, 60);
    assert_eq!(RegionData::default().sample, "");
    assert_eq!((RegionData::default().group, RegionData::default().off_by), (0, 0));
}

#[test]
fn a_note_struck_and_ended_runs_out() {
    let text = "<region> ampeg_release=3 group=1 <region> ampeg_release=5 key=60 off_by=1 <region> trigger=first ampeg_release=7 <region> trigger=legato key=61";
    for sizes in [vec![4usize; 5], vec![1; 20], vec![0, 4, 0, 3, 2, 1, 4, 4, 2], vec![3, 1, 4, 1, 4, 2, 4, 1]] {
        let mut engine = engine_of(text);
        engine.event_with_random(Event::NoteOn(60, 100), zero());
        assert_eq!(playing(&engine), [true, true, true, false]);
        engine.event_with_random(Event::NoteOff(60, 0), draw("0.5"));
        assert_eq!(playing(&engine), [false, false, false, false]);
        assert!(!engine.fade_out_finished());
        let longest = engine.regions.iter().map(|r| r.sample.envelope.release_frames).max().unwrap();
        assert!(sizes.iter().sum::<usize>() >= longest);
        for frames in sizes {
            engine.process(frames);
        }
        assert!(engine.fade_out_finished());
        assert!(engine.regions.iter().all(|r| !r.is_playing()));
    }
}
