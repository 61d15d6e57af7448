use swf_tree::basic_types::{
    ColorTransform, ColorTransformWithAlpha, LanguageCode, Matrix, NamedId, Rect,
    SRgb8, Sfixed16P16, Sfixed8P8, StraightSRgba8, Vector2D,
};
use swf_tree::value::{DecodeError, Member, Value};

fn obj_keys(v: &Value) -> Vec<String> {
    match v {
        Value::Obj(ms) => ms.iter().map(|m| m.key.clone()).collect(),
        _ => panic!("not an object"),
    }
}

fn obj_get<'a>(v: &'a Value, key: &str) -> &'a Value {
    match v {
        Value::Obj(ms) => &ms.iter().find(|m| m.key == key).expect("missing key").value,
        _ => panic!("not an object"),
    }
}

#[test]
fn rect_encodes_to_four_named_integer_members() {
    let r = Rect { x_min: 0, x_max: 100, y_min: 0, y_max: 200 };
    let v = r.encode();
    assert_eq!(obj_keys(&v), vec!["x_min", "x_max", "y_min", "y_max"]);
    assert!(matches!(obj_get(&v, "x_min"), Value::Int(0)));
    assert!(matches!(obj_get(&v, "x_max"), Value::Int(100)));
    assert!(matches!(obj_get(&v, "y_min"), Value::Int(0)));
    assert!(matches!(obj_get(&v, "y_max"), Value::Int(200)));
    assert_eq!(Rect::decode(&v), Ok(r));
}

#[test]
fn rect_rejects_non_object_and_bad_field() {
    assert_eq!(Rect::decode(&Value::Int(3)), Err(DecodeError::ExpectedObject));
    let mut r = Rect { x_min: 1, x_max: 2, y_min: 3, y_max: 4 }.encode();
    if let Value::Obj(ms) = &mut r {
        ms[0].key = "xmin".to_string();
    }
    assert_eq!(Rect::decode(&r), Err(DecodeError::BadField));
}

#[test]
fn rect_rejects_out_of_range_integer() {
    let v = Value::Obj(vec![
        Member { key: "x_min".to_string(), value: Value::Int(1 << 40) },
        Member { key: "x_max".to_string(), value: Value::Int(0) },
        Member { key: "y_min".to_string(), value: Value::Int(0) },
        Member { key: "y_max".to_string(), value: Value::Int(0) },
    ]);
    assert_eq!(Rect::decode(&v), Err(DecodeError::OutOfRange));
}

#[test]
fn basic_types_round_trip() {
    let c = SRgb8 { r: 1, g: 2, b: 3 };
    assert_eq!(SRgb8::decode(&c.encode()), Ok(c));
    let c = StraightSRgba8 { r: 10, g: 20, b: 30, a: 255 };
    assert_eq!(StraightSRgba8::decode(&c.encode()), Ok(c));
    let p = Vector2D { x: -5, y: 7 };
    assert_eq!(Vector2D::decode(&p.encode()), Ok(p));
    let m = Matrix {
        scale_x: Sfixed16P16 { epsilons: 65536 },
        scale_y: Sfixed16P16 { epsilons: -65536 },
        rotate_skew0: Sfixed16P16 { epsilons: 0 },
        rotate_skew1: Sfixed16P16 { epsilons: 1 },
        translate_x: -20,
        translate_y: 40,
    };
    assert_eq!(Matrix::decode(&m.encode()), Ok(m));
    let t = ColorTransform {
        red_mult: Sfixed8P8 { epsilons: 256 },
        green_mult: Sfixed8P8 { epsilons: 128 },
        blue_mult: Sfixed8P8 { epsilons: -256 },
        red_add: -1,
        green_add: 0,
        blue_add: 17,
    };
    assert_eq!(ColorTransform::decode(&t.encode()), Ok(t));
    let t = ColorTransformWithAlpha {
        red_mult: Sfixed8P8 { epsilons: 256 },
        green_mult: Sfixed8P8 { epsilons: 128 },
        blue_mult: Sfixed8P8 { epsilons: -256 },
        alpha_mult: Sfixed8P8 { epsilons: 0 },
        red_add: -1,
        green_add: 0,
        blue_add: 17,
        alpha_add: -128,
    };
    assert_eq!(ColorTransformWithAlpha::decode(&t.encode()), Ok(t));
    let n = NamedId { id: 7, name: "logo".to_string() };
    assert_eq!(NamedId::decode(&n.encode()), Ok(n));
}

#[test]
fn language_code_uses_hyphenated_lowercase_discriminants() {
    let v = LanguageCode::SimplifiedChinese.encode();
    match &v {
        Value::Str(s) => assert_eq!(s, "simplified-chinese"),
        _ => panic!("expected text"),
    }
    assert_eq!(LanguageCode::decode(&v), Ok(LanguageCode::SimplifiedChinese));
}

#[test]
fn language_code_rejects_unknown_discriminant() {
    let v = Value::Str("klingon".to_string());
    assert_eq!(LanguageCode::decode(&v), Err(DecodeError::UnknownVariant));
    let v = Value::Str("Auto".to_string());
    assert_eq!(LanguageCode::decode(&v), Err(DecodeError::UnknownVariant));
}

#[test]
fn language_code_round_trips_every_variant() {
    for x in [
        LanguageCode::Auto,
        LanguageCode::Latin,
        LanguageCode::Japanese,
        LanguageCode::Korean,
        LanguageCode::SimplifiedChinese,
        LanguageCode::TraditionalChinese,
    ] {
        assert_eq!(LanguageCode::decode(&x.encode()), Ok(x));
    }
}
