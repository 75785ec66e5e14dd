use documentalist::{Effect, EffectKind, Entry, Error, Feed, Project, TrimEffect, Value};

fn text(s: &str) -> Value {
    Value::Text(s.to_string())
}

fn number(s: &str) -> Value {
    Value::Number(s.to_string())
}

fn mapping(pairs: Vec<(Value, Value)>) -> Value {
    Value::Mapping(pairs)
}

fn effects_at(ts: &str, name: &str, value: Value) -> (Value, Value) {
    (text(ts), mapping(vec![(text(name), value)]))
}

fn feed_doc(entries: Vec<(Value, Value)>) -> Value {
    mapping(vec![(text("feed"), mapping(entries))])
}

const SEC: u64 = 1_000_000_000;

#[test]
fn it_should_create_entry_from_path() {
    let entry = Entry::from_source_ref("tests/fixtures/short.mp4").unwrap();
    assert_eq!(entry.path, "tests/fixtures/short.mp4");

    let entry = Entry::from_source_ref("tests/fixtures/short.mp4#t=10,20").unwrap();
    assert_eq!(entry.path, "tests/fixtures/short.mp4");
    assert_eq!((entry.in_point, entry.duration()), (Some(10), 10));

    let mut entry = Entry::from_source_ref("tests/fixtures/short.mp4#t=10").unwrap();
    entry.set_native_duration(3000000000);
    assert_eq!((entry.in_point, entry.duration()), (Some(10), 3000000000));

    let entry = Entry::from_source_ref("tests/fixtures/short.mp4#t=,10").unwrap();
    assert_eq!((entry.in_point, entry.duration()), (None, 10));
}

#[test]
fn it_should_get_duration() {
    let mut entry = Entry::from_source_ref("tests/fixtures/short.mp4").unwrap();
    entry.set_native_duration(3000000000);
    assert_eq!(entry.duration(), 3000000000);
}

#[test]
fn malformed_trim_bounds_are_refused() {
    assert_eq!(Entry::from_source_ref("a.mp4#t=x,2").unwrap_err(), Error::InvalidTimestamp);
    assert_eq!(Entry::from_source_ref("a.mp4#t=1,").unwrap_err(), Error::InvalidTimestamp);
    assert_eq!(Entry::from_source_ref("a.mp4#t=20,10").unwrap_err(), Error::InvalidTimestamp);
}

#[test]
fn explicit_trim_bounds_give_out_minus_in() {
    for (r, d) in [("a.mp4#t=0,0", 0u64), ("a.mp4#t=5,5", 0), ("a.mp4#t=7,19", 12)] {
        let mut e = Entry::from_source_ref(r).unwrap();
        e.set_native_duration(1_000);
        assert_eq!(e.duration(), d);
    }
}

#[test]
fn trim_end_without_trim_start_counts_from_zero() {
    let mut entry = Entry::from_source_ref("a.mp4").unwrap();
    entry.set_native_duration(60 * SEC);
    entry.effects.add(Effect::new(EffectKind::Trim(TrimEffect::End), 12 * SEC));
    entry.apply_trims();
    assert_eq!(entry.in_point, None);
    assert_eq!(entry.duration(), 12 * SEC);
}

#[test]
fn trims_set_in_and_out_points() {
    let mut entry = Entry::from_source_ref("a.mp4").unwrap();
    entry.effects.add(Effect::new(EffectKind::Trim(TrimEffect::Start), 2 * SEC));
    entry.effects.add(Effect::new(EffectKind::Trim(TrimEffect::End), 9 * SEC));
    entry.apply_trims();
    assert_eq!(entry.duration(), 7 * SEC);
}

#[test]
fn it_should_create_feed() {
    let feed = Feed::new(vec!["tests/fixtures/short.mp4", "tests/fixtures/short.mp4#t=10,20"]).unwrap();
    assert_eq!(feed.entries.len(), 2);
}

#[test]
fn feed_it_should_visit_pipe() {
    let mut feed = Feed::new(vec![
        "tests/fixtures/short.mp4",
        "tests/fixtures/short.mp4#t=10,20",
        "tests/fixtures/short.mp4",
        "tests/fixtures/short.mp4",
        "tests/fixtures/short.mp4",
    ])
    .unwrap();
    for e in feed.entries.iter_mut() {
        e.set_native_duration(3000000000);
    }
    feed.layout();
    let clips = &feed.entries;
    assert_eq!(clips.len(), 5);
    assert_eq!(clips[0].start, 0);
    assert_eq!(clips[1].in_point, Some(10));
    assert_eq!(clips[1].start, clips[0].duration());
    assert_eq!(clips[1].duration(), 10);
}

#[test]
fn layout_is_contiguous_from_feed_start() {
    let mut feed = Feed::new(vec!["a#t=0,5", "b#t=10,30", "c#t=,7"]).unwrap();
    feed.set_start(100);
    feed.layout();
    let starts: Vec<u64> = feed.entries.iter().map(|e| e.start).collect();
    assert_eq!(starts, vec![100, 105, 125]);
    assert_eq!(feed.duration(), Some(32));
}

#[test]
fn feed_duration_overflow_is_reported() {
    let feed = Feed::new(vec!["a#t=0,18446744073709551615", "b#t=0,1"]).unwrap();
    assert_eq!(feed.duration(), None);
}

#[test]
fn spillover_is_closed_by_next_entry_and_stays_open_at_feed_end() {
    let doc = feed_doc(vec![
        (text("a.mp4#t=0,20000000000"), mapping(vec![effects_at("00:00", "vol", number("5"))])),
        (text("b.mp4#t=0,15000000000"), mapping(vec![effects_at("00:05", "vol", number("10"))])),
    ]);
    let mut feed = Feed::from_doc(&doc).unwrap();
    feed.layout();
    let a = &feed.entries[0];
    let b = &feed.entries[1];
    assert_eq!(a.effects.effects.len(), 1);
    assert_eq!(b.effects.effects.len(), 2);
    let carried = &b.effects.effects[0];
    assert_eq!((carried.anchor, carried.duration), (0, Some(5 * SEC)));
    // The carried volume ends 25 s after the anchor of the volume declared in A.
    let a_vol = &a.effects.effects[0];
    assert_eq!(b.start + carried.anchor + carried.duration.unwrap() - (a.start + a_vol.anchor), 25 * SEC);
    assert_eq!(a_vol.duration, None);
    let b_vol = &b.effects.effects[1];
    assert_eq!((b_vol.anchor, b_vol.duration), (5 * SEC, None));
}

#[test]
fn unmatched_effect_stays_open_through_feed_end() {
    let doc = feed_doc(vec![
        (text("a.mp4"), mapping(vec![effects_at("00:01", "tc", number("2"))])),
        (text("b.mp4"), mapping(vec![effects_at("00:02", "vol", number("3"))])),
        (text("c.mp4"), Value::Null),
    ]);
    let feed = Feed::from_doc(&doc).unwrap();
    let last = &feed.entries[2].effects.effects;
    assert_eq!(last.len(), 2);
    assert!(last.iter().all(|e| e.duration.is_none() && e.anchor == 0));
}

#[test]
fn effects_within_an_entry_close_each_other() {
    let doc = feed_doc(vec![(
        text("a.mp4"),
        mapping(vec![
            effects_at("00:01", "vol", number("2")),
            effects_at("00:04", "vol", number("3")),
        ]),
    )]);
    let feed = Feed::from_doc(&doc).unwrap();
    let fx = &feed.entries[0].effects.effects;
    assert_eq!(fx[0].duration, Some(3 * SEC));
    assert_eq!(fx[1].duration, None);
}

#[test]
fn document_shape_errors() {
    assert_eq!(Feed::from_doc(&Value::Null).unwrap_err(), Error::MalformedShape);
    assert_eq!(Feed::from_doc(&mapping(vec![(text("reel"), mapping(vec![]))])).unwrap_err(), Error::MalformedShape);
    let bad_effects = feed_doc(vec![(text("a.mp4"), number("3"))]);
    assert_eq!(Feed::from_doc(&bad_effects).unwrap_err(), Error::MalformedShape);
    let bad_key = feed_doc(vec![(text("a.mp4"), mapping(vec![(text("soon"), mapping(vec![]))]))]);
    assert_eq!(Feed::from_doc(&bad_key).unwrap_err(), Error::InvalidTimestamp);
    let bad_effect = feed_doc(vec![(text("a.mp4"), mapping(vec![effects_at("00:01", "blur", number("1"))]))]);
    assert_eq!(Feed::from_doc(&bad_effect).unwrap_err(), Error::UnknownEffectKey);
    let not_a_list = mapping(vec![]);
    assert_eq!(Project::from_doc(&not_a_list).unwrap_err(), Error::MalformedShape);
    let entry = Entry::from_doc(&mapping(vec![(text("a"), Value::Null), (text("b"), Value::Null)]));
    assert_eq!(entry.unwrap_err(), Error::MalformedShape);
}

#[test]
fn project_cannot_be_moved_or_resized() {
    let mut p = Project::new();
    assert_eq!(p.start(), 0);
    assert_eq!(p.set_start(5), Err(Error::IllegalProjectMutation));
    assert_eq!(p.set_duration(5), Err(Error::IllegalProjectMutation));
    assert_eq!(p.set_inpoint(5), Err(Error::IllegalProjectMutation));
}

fn project_doc() -> Value {
    Value::List(vec![
        feed_doc(vec![
            (text("a.mp4#t=0,4"), mapping(vec![effects_at("00:00", "trim", text("end"))])),
            (text("b.mp4#t=2,9"), Value::Null),
        ]),
        feed_doc(vec![(text("c.mp4"), Value::Null)]),
    ])
}

#[test]
fn project_feeds_are_laid_out_back_to_back() {
    let mut p = Project::from_doc(&project_doc()).unwrap();
    p.feeds[1].entries[0].set_native_duration(100);
    p.apply_trims();
    assert_eq!(p.duration(), Some(107));
    p.layout();
    assert_eq!(p.feeds[0].start, 0);
    assert_eq!(p.feeds[1].start, 7);
    assert_eq!(p.feeds[0].entries[1].start, 0);
    assert_eq!(p.feeds[1].entries[0].start, 7);
}

#[test]
fn rereading_the_same_document_gives_the_same_starts() {
    let mut starts = Vec::new();
    for _ in 0..2 {
        let mut p = Project::from_doc(&project_doc()).unwrap();
        p.feeds[1].entries[0].set_native_duration(100);
        p.apply_trims();
        p.layout();
        let s: Vec<u64> = p.feeds.iter().flat_map(|f| f.entries.iter().map(|e| e.start)).collect();
        starts.push(s);
    }
    assert_eq!(starts[0], starts[1]);
}

fn two_entry_volume_feed() -> Feed {
    let doc = feed_doc(vec![
        (text("a.mp4#t=0,20000000000"), mapping(vec![effects_at("00:00", "vol", number("5"))])),
        (text("b.mp4#t=0,15000000000"), mapping(vec![effects_at("00:05", "vol", number("10"))])),
    ]);
    Feed::from_doc(&doc).unwrap()
}

#[test]
fn open_effect_span_runs_across_the_boundary() {
    let feed = two_entry_volume_feed();
    assert_eq!(feed.effect_span(0, 0), Some(25 * SEC));
    assert_eq!(feed.effect_span(1, 0), Some(5 * SEC));
    assert_eq!(feed.effect_span(1, 1), None);
    assert_eq!(feed.effect_span(2, 0), None);
}

#[test]
fn closing_spans_gives_the_first_volume_twenty_five_seconds() {
    let mut feed = two_entry_volume_feed();
    feed.close_spans();
    assert_eq!(feed.entries[0].effects.effects[0].duration, Some(25 * SEC));
    assert_eq!(feed.entries[1].effects.effects[0].duration, Some(5 * SEC));
    assert_eq!(feed.entries[1].effects.effects[1].duration, None);
}

#[test]
fn span_follows_copies_through_several_entries() {
    let doc = feed_doc(vec![
        (text("a#t=0,10"), mapping(vec![(number("3"), mapping(vec![(text("tc"), number("2"))]))])),
        (text("b#t=0,100"), Value::Null),
        (text("c#t=0,50"), mapping(vec![(number("7"), mapping(vec![(text("tc"), number("1"))]))])),
    ]);
    let mut feed = Feed::from_doc(&doc).unwrap();
    assert_eq!(feed.effect_span(0, 0), Some(7 + 100 + 7));
    feed.close_spans();
    assert_eq!(feed.entries[0].effects.effects[0].duration, Some(114));
    assert_eq!(feed.entries[1].effects.effects[0].duration, Some(107));
    assert_eq!(feed.entries[2].effects.effects[0].duration, Some(7));
    assert_eq!(feed.entries[2].effects.effects[1].duration, None);
}
