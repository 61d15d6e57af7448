//! In-memory document model for a tagged vector-graphics/animation file
//! format, together with a verified codec between the model and a textual
//! interchange value tree.
//!
//! The model is a closed set of record types: geometric and color
//! primitives, definition and control tags, filters, and sound parameters.
//! Every record encodes to an interchange value (an ordered object tree
//! with lowercase field names, hex text for binary payloads, and symbolic
//! discriminants for enums) and decodes back; the codec's contracts pin the
//! encoding exactly and the round-trip laws are proved.

pub mod basic_types;
pub mod button;
pub mod filters;
pub mod hex;
pub mod shape;
pub mod sound;
pub mod tags;
pub mod text;
pub mod value;

pub use self::basic_types::ColorTransform;
pub use self::basic_types::ColorTransformWithAlpha;
pub use self::basic_types::LanguageCode;
pub use self::basic_types::Matrix;
pub use self::basic_types::NamedId;
pub use self::basic_types::Rect;
pub use self::basic_types::SRgb8;
pub use self::basic_types::Sfixed16P16;
pub use self::basic_types::Sfixed8P8;
pub use self::basic_types::StraightSRgba8;
pub use self::basic_types::Vector2D;
pub use self::filters::BlendMode;
pub use self::filters::Filter;
pub use self::shape::ClipAction;
pub use self::shape::Glyph;
pub use self::shape::MorphShape;
pub use self::shape::Shape;
pub use self::shape::ShapeRecord;
pub use self::sound::AudioCodingFormat;
pub use self::sound::SoundRate;
pub use self::sound::SoundSize;
pub use self::sound::SoundType;
