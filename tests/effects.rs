use documentalist::{
    parse_effect, Effect, EffectKind, Error, TimeCompressionEffect, TimedEffects, Token, TrimEffect,
    Value, VolumeEffect,
};

fn text(s: &str) -> Value {
    Value::Text(s.to_string())
}

fn number(s: &str) -> Value {
    Value::Number(s.to_string())
}

fn vol(level: &str, anchor: u64) -> Effect {
    Effect::new(EffectKind::Volume(VolumeEffect { level: level.to_string() }), anchor)
}

fn tc(factor: &str, anchor: u64) -> Effect {
    Effect::new(EffectKind::TimeCompression(TimeCompressionEffect { factor: factor.to_string() }), anchor)
}

fn level_of(e: &Effect) -> String {
    match &e.kind {
        EffectKind::Volume(v) => v.level.clone(),
        EffectKind::TimeCompression(c) => c.factor.clone(),
        EffectKind::Trim(TrimEffect::Start) => "trim-start".to_string(),
        EffectKind::Trim(TrimEffect::End) => "trim-end".to_string(),
    }
}

#[test]
fn parsers_are_tried_in_order() {
    let e = parse_effect(&text("trim"), &text("start"), 7).unwrap();
    assert_eq!(e.tok(), Token::TrimStart);
    assert_eq!((e.anchor, e.duration), (7, None));
    let e = parse_effect(&text("trim"), &text("end"), 8).unwrap();
    assert_eq!(e.tok(), Token::TrimEnd);
    let e = parse_effect(&text("vol"), &number("0.5"), 9).unwrap();
    assert_eq!(e.tok(), Token::Volume);
    assert_eq!(level_of(&e), "0.5");
    let e = parse_effect(&text("tc"), &number("2"), 10).unwrap();
    assert_eq!(e.tok(), Token::TimeCompression);
    assert_eq!(level_of(&e), "2");
}

#[test]
fn unknown_effect_is_refused() {
    assert_eq!(parse_effect(&text("blur"), &number("1"), 0).unwrap_err(), Error::UnknownEffectKey);
    assert_eq!(parse_effect(&text("trim"), &text("middle"), 0).unwrap_err(), Error::UnknownEffectKey);
    assert_eq!(parse_effect(&text("vol"), &text("loud"), 0).unwrap_err(), Error::UnknownEffectKey);
}

#[test]
fn can_parse_predicates() {
    assert!(TrimEffect::can_parse(&text("trim"), &text("end")));
    assert!(!TrimEffect::can_parse(&text("trim"), &number("1")));
    assert!(VolumeEffect::can_parse(&text("vol"), &number("1")));
    assert!(!VolumeEffect::can_parse(&text("tc"), &number("1")));
    assert!(TimeCompressionEffect::can_parse(&text("tc"), &number("1")));
}

#[test]
fn only_open_volume_and_speed_effects_spill_over() {
    let open = vol("5", 30);
    let copy = open.spill_over_effect().unwrap();
    assert_eq!((copy.anchor, copy.duration, copy.tok()), (0, None, Token::Volume));
    assert_eq!(level_of(&copy), "5");
    let mut closed = tc("2", 3);
    closed.set_duration(Some(4));
    assert!(closed.spill_over_effect().is_none());
    let trim = Effect::new(EffectKind::Trim(TrimEffect::End), 3);
    assert!(trim.spill_over_effect().is_none());
}

#[test]
fn add_and_extend_keep_order() {
    let mut set = TimedEffects::new();
    set.add(vol("1", 0));
    let mut other = TimedEffects::new();
    other.add(tc("2", 5));
    other.add(vol("3", 9));
    set.extend(other);
    let levels: Vec<String> = set.effects.iter().map(level_of).collect();
    assert_eq!(levels, vec!["1", "2", "3"]);
}

#[test]
fn later_effect_of_same_kind_closes_the_open_one() {
    let mut set = TimedEffects::new();
    set.add_closing(vol("1", 2_000));
    set.add_closing(tc("2", 3_000));
    set.add_closing(vol("3", 5_000));
    assert_eq!(set.effects[0].duration, Some(3_000));
    assert_eq!(set.effects[1].duration, None);
    assert_eq!(set.effects[2].duration, None);
}

#[test]
fn prepend_closes_carried_effects_by_first_match() {
    let mut carried = TimedEffects::new();
    carried.add(vol("5", 0));
    carried.add(tc("2", 0));
    let mut set = TimedEffects::new();
    set.add(vol("10", 5_000));
    set.add(vol("11", 7_000));
    let next = set.prepend(carried);
    assert_eq!(set.effects.len(), 4);
    assert_eq!(level_of(&set.effects[0]), "5");
    assert_eq!(set.effects[0].duration, Some(5_000));
    assert_eq!(level_of(&set.effects[1]), "2");
    assert_eq!(set.effects[1].duration, None);
    assert_eq!(level_of(&set.effects[2]), "10");
    let carried_on: Vec<(String, u64)> = next.effects.iter().map(|e| (level_of(e), e.anchor)).collect();
    assert_eq!(
        carried_on,
        vec![("2".to_string(), 0), ("10".to_string(), 0), ("11".to_string(), 0)]
    );
}

#[test]
fn prepend_of_nothing_changes_nothing() {
    let mut set = TimedEffects::new();
    set.add(Effect::new(EffectKind::Trim(TrimEffect::Start), 4));
    let next = set.prepend(TimedEffects::new());
    assert_eq!(set.effects.len(), 1);
    assert_eq!(next.effects.len(), 0);
}
