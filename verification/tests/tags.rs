use swf_tree::basic_types::{LanguageCode, NamedId, Rect, SRgb8, StraightSRgba8, Vector2D};
use swf_tree::filters::{Blur, ColorStop, Filter, GradientGlow};
use swf_tree::shape::{MoveTo, Shape, ShapeRecord, StraightEdge};
use swf_tree::sound::{AudioCodingFormat, SoundRate, SoundSize, SoundType};
use swf_tree::tags::{
    DefineBitmap, DefineFont, DefineShape, DefineSound, ExportAssets, FileAttributes,
    FrameLabel, ImageType, Metadata, RemoveObject, SetBackgroundColor, Telemetry,
    Unknown,
};
use swf_tree::value::Value;

fn keys(v: &Value) -> Vec<String> {
    match v {
        Value::Obj(ms) => ms.iter().map(|m| m.key.clone()).collect(),
        _ => panic!("not an object"),
    }
}

fn get<'a>(v: &'a Value, key: &str) -> &'a Value {
    match v {
        Value::Obj(ms) => &ms.iter().find(|m| m.key == key).expect("missing key").value,
        _ => panic!("not an object"),
    }
}

#[test]
fn define_bitmap_data_encodes_to_lowercase_hex() {
    let t = DefineBitmap {
        id: 4,
        width: 10,
        height: 20,
        media_type: ImageType::Png,
        data: vec![0x00, 0xff, 0x10],
    };
    let v = t.encode();
    match get(&v, "data") {
        Value::Str(s) => assert_eq!(s, "00ff10"),
        _ => panic!("expected hex text"),
    }
    assert_eq!(DefineBitmap::decode(&v), Ok(t));
}

#[test]
fn define_font_with_all_options_absent_has_no_keys_for_them() {
    let t = DefineFont {
        id: 1,
        font_name: "Vera".to_string(),
        is_bold: false,
        is_italic: false,
        is_ansi: true,
        is_small: false,
        is_shift_jis: false,
        language: LanguageCode::Auto,
        glyphs: None,
        code_units: None,
        layout: None,
    };
    let v = t.encode();
    let ks = keys(&v);
    assert!(!ks.contains(&"glyphs".to_string()));
    assert!(!ks.contains(&"code_units".to_string()));
    assert!(!ks.contains(&"layout".to_string()));
    assert_eq!(ks.len(), 8);
}

#[test]
fn define_font_with_code_units_round_trips() {
    let t = DefineFont {
        id: 2,
        font_name: "Mono".to_string(),
        is_bold: true,
        is_italic: false,
        is_ansi: false,
        is_small: false,
        is_shift_jis: false,
        language: LanguageCode::Japanese,
        glyphs: None,
        code_units: Some(vec![65, 66, 0xFFFF]),
        layout: None,
    };
    let v = t.encode();
    assert!(keys(&v).contains(&"code_units".to_string()));
}

#[test]
fn unknown_tag_preserves_code_and_bytes() {
    let t = Unknown { code: 0xBEEF, data: vec![1, 2, 3, 0, 255, 16] };
    let v = t.encode();
    assert!(matches!(get(&v, "code"), Value::Int(48879)));
    match get(&v, "data") {
        Value::Str(s) => assert_eq!(s, "01020300ff10"),
        _ => panic!("expected hex text"),
    }
    assert_eq!(Unknown::decode(&v), Ok(t));
    let empty = Unknown { code: 0, data: vec![] };
    assert_eq!(Unknown::decode(&empty.encode()), Ok(empty));
}

#[test]
fn filter_uses_type_discriminant_and_round_trips() {
    let f = Filter::Blur(Blur { blur_x: 5, blur_y: 6, passes: 2 });
    let v = f.encode();
    assert_eq!(keys(&v)[0], "type");
    match get(&v, "type") {
        Value::Str(s) => assert_eq!(s, "blur"),
        _ => panic!("expected text"),
    }
    assert_eq!(Filter::decode(&v), Ok(f));
    let f = Filter::GradientGlow(GradientGlow {
        gradient: vec![
            ColorStop { ratio: 0, color: StraightSRgba8 { r: 0, g: 0, b: 0, a: 255 } },
            ColorStop { ratio: 255, color: StraightSRgba8 { r: 255, g: 0, b: 0, a: 0 } },
        ],
        blur_x: 1,
        blur_y: 2,
        angle: 3,
        distance: 4,
        strength: 5,
        inner: false,
        knockout: true,
        passes: 1,
    });
    assert_eq!(Filter::decode(&f.encode()), Ok(f));
}

#[test]
fn filter_rejects_unknown_discriminant() {
    let f = Filter::Blur(Blur { blur_x: 5, blur_y: 6, passes: 2 });
    let mut v = f.encode();
    if let Value::Obj(ms) = &mut v {
        ms[0].value = Value::Str("sepia".to_string());
    }
    assert!(Filter::decode(&v).is_err());
}

#[test]
fn shape_records_round_trip() {
    let t = DefineShape {
        id: 9,
        bounds: Rect { x_min: 0, x_max: 10, y_min: 0, y_max: 10 },
        edge_bounds: None,
        has_fill_winding: false,
        has_non_scaling_strokes: true,
        has_scaling_strokes: false,
        shape: Shape {
            records: vec![
                ShapeRecord::MoveTo(MoveTo { delta: Vector2D { x: 1, y: 2 } }),
                ShapeRecord::StraightEdge(StraightEdge { delta: Vector2D { x: 3, y: -4 } }),
            ],
        },
    };
    assert_eq!(DefineShape::decode(&t.encode()), Ok(t));
}

#[test]
fn control_and_metadata_tags_round_trip() {
    let t = RemoveObject { character_id: None, depth: 2 };
    let v = t.encode();
    assert_eq!(keys(&v), vec!["depth"]);
    assert_eq!(RemoveObject::decode(&v), Ok(t));
    let t = SetBackgroundColor { color: SRgb8 { r: 255, g: 255, b: 255 } };
    assert_eq!(SetBackgroundColor::decode(&t.encode()), Ok(t));
    let t = Metadata { metadata: "<rdf/>".to_string() };
    assert_eq!(Metadata::decode(&t.encode()), Ok(t));
    let t = FrameLabel { name: "intro".to_string(), is_anchor: false };
    assert_eq!(FrameLabel::decode(&t.encode()), Ok(t));
    let t = ExportAssets {
        assets: vec![NamedId { id: 1, name: "a".to_string() }, NamedId { id: 2, name: "b".to_string() }],
    };
    assert_eq!(ExportAssets::decode(&t.encode()), Ok(t));
    let t = FileAttributes {
        use_direct_blit: false,
        use_gpu: false,
        has_metadata: true,
        use_as3: true,
        no_cross_domain_caching: false,
        use_relative_urls: false,
        use_network: true,
    };
    assert_eq!(FileAttributes::decode(&t.encode()), Ok(t));
    let t = Telemetry { password: Some(vec![1, 2, 3]) };
    assert_eq!(Telemetry::decode(&t.encode()), Ok(t));
    let t = Telemetry { password: None };
    assert_eq!(Telemetry::decode(&t.encode()), Ok(t));
}

#[test]
fn define_sound_round_trips() {
    let t = DefineSound {
        id: 11,
        format: AudioCodingFormat::Mp3,
        sound_rate: SoundRate::SoundRate44000,
        sound_size: SoundSize::SoundSize16,
        sound_type: SoundType::Stereo,
        sample_count: 44100,
        data: vec![0xde, 0xad],
    };
    assert_eq!(DefineSound::decode(&t.encode()), Ok(t));
}
