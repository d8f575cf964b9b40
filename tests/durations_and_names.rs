use guitarpro::convert::{note_value_class, rhythm_to_duration};
use guitarpro::duration::Duration;
use guitarpro::load::{detect_format, Format, LoadError};
use guitarpro::schema::{AugmentationDot, PrimaryTuplet, Rhythm};
use guitarpro::signature::{KeySignature, TimeSignature};
use guitarpro::text::{chars_of, parse_decimal, parse_id_list, same_text};

fn rhythm(name: &str) -> Rhythm {
    Rhythm { note_value: name.to_string(), primary_tuplet: None, augmentation_dot: None }
}

#[test]
fn note_value_table_round_trips() {
    let table = [("Whole", 0u8, 3840u64), ("Half", 1, 1920), ("Quarter", 2, 960), ("Eighth", 3, 480), ("16th", 4, 240), ("32nd", 5, 120)];
    for (name, class, ticks) in table {
        let d = rhythm_to_duration(&rhythm(name)).unwrap();
        assert_eq!(d.value, class);
        assert!(!d.dotted && !d.double_dotted);
        assert_eq!((d.tuplet_enters, d.tuplet_times), (1, 1));
        assert_eq!(d.time(), ticks);
        assert_eq!(note_value_class(name), Some(class));
    }
    assert_eq!(note_value_class("quarter"), None);
}

#[test]
fn dots_and_tuplets_from_rhythms() {
    let r = Rhythm {
        note_value: "Eighth".to_string(),
        primary_tuplet: Some(PrimaryTuplet { num: 3, den: 2 }),
        augmentation_dot: Some(AugmentationDot { count: 2 }),
    };
    let d = rhythm_to_duration(&r).unwrap();
    assert!(!d.dotted);
    assert!(d.double_dotted);
    assert_eq!((d.tuplet_enters, d.tuplet_times), (3, 2));
    assert_eq!(d.time(), 720);
}

#[test]
fn tuplet_support_is_table_driven() {
    let mut d = Duration::default();
    d.tuplet_enters = 3;
    d.tuplet_times = 2;
    assert!(d.is_supported());
    assert!(d.is_supported());
    d.tuplet_enters = 4;
    d.tuplet_times = 3;
    assert!(!d.is_supported());
    for (e, t) in [(1, 1), (5, 4), (6, 4), (7, 4), (9, 8), (10, 8), (11, 8), (12, 8), (13, 8)] {
        d.tuplet_enters = e;
        d.tuplet_times = t;
        assert!(d.is_supported());
    }
    d.tuplet_enters = 8;
    d.tuplet_times = 8;
    assert!(!d.is_supported());
}

#[test]
fn tick_arithmetic() {
    let mut d = Duration::default();
    assert_eq!(d.value, 2);
    assert_eq!(d.time(), 960);
    d.dotted = true;
    assert_eq!(d.time(), 1440);
    d.dotted = false;
    d.tuplet_enters = 5;
    d.tuplet_times = 4;
    assert_eq!(d.time(), 1200);
    assert_eq!(d.convert_time(7), 8);
    d.value = 12;
    assert_eq!(d.time(), 0);
}

#[test]
fn index_is_the_class() {
    let mut d = Duration::default();
    assert_eq!(d.index(), 2);
    for v in [0u8, 1, 3, 5] {
        d.value = v;
        assert_eq!(d.index(), v);
    }
}

#[test]
fn key_names() {
    assert_eq!(KeySignature { key: 0, is_minor: false }.to_string(), "C major");
    assert_eq!(KeySignature { key: 0, is_minor: true }.to_string(), "A minor");
    assert_eq!(KeySignature { key: -1, is_minor: false }.to_string(), "F major");
    assert_eq!(KeySignature { key: -8, is_minor: false }.to_string(), "F♭ major");
    assert_eq!(KeySignature { key: 8, is_minor: true }.to_string(), "E# minor");
    assert_eq!(KeySignature::default().to_string(), "C major");
    let t = TimeSignature::default();
    assert_eq!(t.numerator, 4);
    assert_eq!(t.beams, vec![2, 2, 2, 2]);
}

#[test]
fn format_detection() {
    assert_eq!(detect_format(Some("gp")), Ok(Format::Gpif));
    assert_eq!(detect_format(Some("GP")), Ok(Format::Gpif));
    assert_eq!(detect_format(Some("gp5")), Err(LoadError::Unsupported("GP5".to_string())));
    assert_eq!(detect_format(Some("Gpx")), Err(LoadError::Unsupported("GPX".to_string())));
    assert_eq!(detect_format(Some("txt")), Err(LoadError::VersionDetection("TXT".to_string())));
    assert!(matches!(detect_format(None), Err(LoadError::VersionDetection(_))));
}

#[test]
fn numbers_and_id_lists() {
    assert_eq!(parse_decimal(&chars_of("42"), 0, 255), Some(42));
    assert_eq!(parse_decimal(&chars_of("+7"), 0, 255), Some(7));
    assert_eq!(parse_decimal(&chars_of("-1"), -5, 5), Some(-1));
    assert_eq!(parse_decimal(&chars_of("-0"), 0, 255), None);
    assert_eq!(parse_decimal(&chars_of("256"), 0, 255), None);
    assert_eq!(parse_decimal(&chars_of("99999999999999999999"), 0, 255), None);
    assert_eq!(parse_decimal(&chars_of(""), 0, 255), None);
    assert_eq!(parse_decimal(&chars_of("1a"), 0, 255), None);
    assert_eq!(parse_id_list("0 1 2", 0, 10), Some(vec![0, 1, 2]));
    assert_eq!(parse_id_list("-1 3", -1, 10), Some(vec![-1, 3]));
    assert_eq!(parse_id_list("", 0, 10), Some(vec![]));
    assert_eq!(parse_id_list("1  2", 0, 10), None);
    assert_eq!(parse_id_list("1 11", 0, 10), None);
    assert!(same_text("abc", "abc"));
    assert!(!same_text("abc", "abd"));
    assert!(!same_text("ab", "abc"));
}
