use voxtral_mini_realtime::nvtx::{range_label, Guard};
use voxtral_mini_realtime::profile::{
    choose_tokenizer, input_segments, text_ids, Run, Schedule, Segment, TokenizerChoice,
};

#[test]
fn given_tokenizer_wins() {
    assert_eq!(choose_tokenizer(true, &[true, false]), TokenizerChoice::Given);
    assert_eq!(choose_tokenizer(true, &[]), TokenizerChoice::Given);
}

#[test]
fn first_existing_candidate_is_chosen() {
    assert_eq!(
        choose_tokenizer(false, &[false, true, true]),
        TokenizerChoice::Candidate { index: 1 }
    );
    assert_eq!(choose_tokenizer(false, &[true]), TokenizerChoice::Candidate { index: 0 });
}

#[test]
fn no_tokenizer_is_found() {
    assert_eq!(choose_tokenizer(false, &[false, false, false]), TokenizerChoice::NotFound);
    assert_eq!(choose_tokenizer(false, &[]), TokenizerChoice::NotFound);
}

#[test]
fn text_ids_keep_their_bits() {
    assert_eq!(text_ids(&[0, 7, 0x7FFF_FFFF, 0x8000_0000, u32::MAX]), vec![
        0,
        7,
        i32::MAX,
        i32::MIN,
        -1
    ]);
}

#[test]
fn input_order() {
    assert_eq!(input_segments(), vec![
        Segment::Bos,
        Segment::BeginAudio,
        Segment::Voice,
        Segment::NextAudioText,
        Segment::Text,
        Segment::RepeatAudioText,
        Segment::BeginAudio,
    ]);
}

#[test]
fn warmup_runs_come_first() {
    let mut schedule = Schedule::new(2);
    assert_eq!(schedule.next(), Run::Warmup { number: 1, total: 2 });
    schedule = schedule.completed();
    assert_eq!(schedule.next(), Run::Warmup { number: 2, total: 2 });
    schedule = schedule.completed();
    assert_eq!(schedule.next(), Run::Profiled);
    schedule = schedule.completed();
    assert_eq!(schedule.next(), Run::Finished);
    schedule = schedule.completed();
    assert_eq!(schedule.next(), Run::Finished);
}

#[test]
fn a_session_may_have_no_warmup() {
    let schedule = Schedule::new(0);
    assert_eq!(schedule.next(), Run::Profiled);
    assert_eq!(schedule.completed().next(), Run::Finished);
}

#[test]
fn guards_nest() {
    let _outer = Guard::new("outer");
    for i in 0..3 {
        let _inner = Guard::new(&format!("inner {i}"));
    }
}

#[test]
fn range_labels() {
    assert_eq!(range_label(1, 4096), "q4mm 1x4096");
    assert_eq!(range_label(0, 10), "q4mm 0x10");
    assert_eq!(range_label(98765, 43210), "q4mm 98765x43210");
    let largest = usize::MAX;
    assert_eq!(range_label(largest, 9), format!("q4mm {largest}x9"));
    let _range = Guard::new(&range_label(2, 3072));
}
