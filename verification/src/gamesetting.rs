use vstd::prelude::*;
use vstd::string::{StrSliceExecFns, StringExecFns};
use crate::GameSettingMeta;
use crate::error::{ConfigError, ErrModel};
use crate::model::{GameModel, GameValueModel, MetaModel, SettingModel, spec_render,
    spec_game_value_text, u8_text, i64_text};
use crate::numparse::{spec_parse_u8, spec_parse_i64, spec_is_float_text, parse_u8, parse_i64,
    is_float_text};
use crate::strutil::{spec_split, spec_trim, spec_find, str_split, str_trim, str_find, str_eq};

verus! {

// ---------------------------------------------------------------------------
// The four value shapes
// ---------------------------------------------------------------------------

#[derive(Debug)]
pub struct ColorGameSetting {
    pub meta: GameSettingMeta,
    pub key: String,
    pub value: (u8, u8, u8),
}

#[derive(Debug)]
pub struct StringGameSetting {
    pub meta: GameSettingMeta,
    pub key: String,
    pub value: String,
}

/// A fractional value; the literal text is kept exactly as the file spelled
/// it, so re-serialization is faithful.
#[derive(Debug)]
pub struct FloatGameSetting {
    pub meta: GameSettingMeta,
    pub key: String,
    pub value: String,
}

#[derive(Debug)]
pub struct IntGameSetting {
    pub meta: GameSettingMeta,
    pub key: String,
    pub value: i64,
}

/// A typed `fallback=` entry; the shape is inferred from the literal value
/// text at parse time.
#[derive(Debug)]
pub enum GameSettingType {
    Color(ColorGameSetting),
    String(StringGameSetting),
    Float(FloatGameSetting),
    Int(IntGameSetting),
}

impl View for GameSettingType {
    type V = GameModel;

    open spec fn view(&self) -> GameModel {
        match self {
            GameSettingType::Color(s) => GameModel {
                key: s.key@,
                value: GameValueModel::Color { r: s.value.0, g: s.value.1, b: s.value.2 },
                meta: s.meta@,
            },
            GameSettingType::String(s) => GameModel {
                key: s.key@,
                value: GameValueModel::Text(s.value@),
                meta: s.meta@,
            },
            GameSettingType::Float(s) => GameModel {
                key: s.key@,
                value: GameValueModel::Float(s.value@),
                meta: s.meta@,
            },
            GameSettingType::Int(s) => GameModel {
                key: s.key@,
                value: GameValueModel::Int(s.value),
                meta: s.meta@,
            },
        }
    }
}

impl DeepView for GameSettingType {
    type V = GameModel;

    open spec fn deep_view(&self) -> GameModel {
        self.view()
    }
}

impl Clone for GameSettingType {
    fn clone(&self) -> (r: Self)
        ensures
            r@ == self@,
    {
        match self {
            GameSettingType::Color(s) => GameSettingType::Color(
                ColorGameSetting {
                    meta: GameSettingMeta {
                        source_config: s.meta.source_config.clone(),
                        comment: s.meta.comment.clone(),
                    },
                    key: s.key.clone(),
                    value: (s.value.0, s.value.1, s.value.2),
                },
            ),
            GameSettingType::String(s) => GameSettingType::String(
                StringGameSetting {
                    meta: GameSettingMeta {
                        source_config: s.meta.source_config.clone(),
                        comment: s.meta.comment.clone(),
                    },
                    key: s.key.clone(),
                    value: s.value.clone(),
                },
            ),
            GameSettingType::Float(s) => GameSettingType::Float(
                FloatGameSetting {
                    meta: GameSettingMeta {
                        source_config: s.meta.source_config.clone(),
                        comment: s.meta.comment.clone(),
                    },
                    key: s.key.clone(),
                    value: s.value.clone(),
                },
            ),
            GameSettingType::Int(s) => GameSettingType::Int(
                IntGameSetting {
                    meta: GameSettingMeta {
                        source_config: s.meta.source_config.clone(),
                        comment: s.meta.comment.clone(),
                    },
                    key: s.key.clone(),
                    value: s.value,
                },
            ),
        }
    }
}

// ---------------------------------------------------------------------------
// Classification of the raw value text
// ---------------------------------------------------------------------------

/// Three comma-separated tokens, each an 8-bit unsigned integer after
/// trimming, make a color.
pub open spec fn spec_color_of(v: Seq<char>) -> Option<(u8, u8, u8)> {
    let parts = spec_split(v, ',');
    if parts.len() == 3 {
        if spec_parse_u8(spec_trim(parts[0])) is Some && spec_parse_u8(spec_trim(parts[1]))
            is Some && spec_parse_u8(spec_trim(parts[2])) is Some {
            Some(
                (
                    spec_parse_u8(spec_trim(parts[0]))->Some_0,
                    spec_parse_u8(spec_trim(parts[1]))->Some_0,
                    spec_parse_u8(spec_trim(parts[2]))->Some_0,
                ),
            )
        } else {
            None
        }
    } else {
        None
    }
}

/// The value-shape inference, in priority order: color, then fractional
/// (the text holds a point and reads as a floating-point literal), then
/// integer, then verbatim text.
pub open spec fn spec_classify_game_value(v: Seq<char>) -> GameValueModel {
    if spec_color_of(v) is Some {
        GameValueModel::Color {
            r: spec_color_of(v)->Some_0.0,
            g: spec_color_of(v)->Some_0.1,
            b: spec_color_of(v)->Some_0.2,
        }
    } else if spec_find(v, '.') is Some && spec_is_float_text(v) {
        GameValueModel::Float(v)
    } else if spec_parse_i64(v) is Some {
        GameValueModel::Int(spec_parse_i64(v)->Some_0)
    } else {
        GameValueModel::Text(v)
    }
}

/// What `fallback=<v>` parses to when `v` splits at its first comma into a
/// key and a value.
pub open spec fn spec_game_setting(v: Seq<char>, source: Seq<char>, comment: Seq<char>) -> GameModel
    recommends
        spec_find(v, ',') is Some,
{
    let i = spec_find(v, ',')->Some_0;
    GameModel {
        key: v.subrange(0, i),
        value: spec_classify_game_value(v.subrange(i + 1, v.len() as int)),
        meta: MetaModel { source, comment },
    }
}

/// Reads a `r,g,b` color triple, or nothing.
pub fn parse_color_value(value: &str) -> (r: Option<(u8, u8, u8)>)
    ensures
        r == spec_color_of(value@),
{
    let parts = str_split(value, ',');
    if parts.len() != 3 {
        return None;
    }
    assert(parts@[0]@ == spec_split(value@, ',')[0]);
    assert(parts@[1]@ == spec_split(value@, ',')[1]);
    assert(parts@[2]@ == spec_split(value@, ',')[2]);
    let p0 = parse_u8(str_trim(parts[0].as_str()));
    let p1 = parse_u8(str_trim(parts[1].as_str()));
    let p2 = parse_u8(str_trim(parts[2].as_str()));
    match (p0, p1, p2) {
        (Some(a), Some(b), Some(c)) => Some((a, b, c)),
        _ => None,
    }
}

fn classify_game_value(v: &str) -> (r: GameValueKind)
    ensures
        r@ == spec_classify_game_value(v@),
{
    match parse_color_value(v) {
        Some((a, b, c)) => GameValueKind::Color(a, b, c),
        None => {
            let has_dot = match str_find(v, '.') {
                Some(_) => true,
                None => false,
            };
            if has_dot && is_float_text(v) {
                GameValueKind::Float(v.to_owned())
            } else {
                match parse_i64(v) {
                    Some(i) => GameValueKind::Int(i),
                    None => GameValueKind::Text(v.to_owned()),
                }
            }
        },
    }
}

/// Executable counterpart of the classified value, before it is paired with
/// a key and provenance.
enum GameValueKind {
    Color(u8, u8, u8),
    Float(String),
    Int(i64),
    Text(String),
}

impl View for GameValueKind {
    type V = GameValueModel;

    closed spec fn view(&self) -> GameValueModel {
        match self {
            GameValueKind::Color(a, b, c) => GameValueModel::Color { r: *a, g: *b, b: *c },
            GameValueKind::Float(t) => GameValueModel::Float(t@),
            GameValueKind::Int(i) => GameValueModel::Int(*i),
            GameValueKind::Text(t) => GameValueModel::Text(t@),
        }
    }
}

// ---------------------------------------------------------------------------
// The accessors and the parser
// ---------------------------------------------------------------------------

impl GameSettingType {
    pub fn key(&self) -> (r: &String)
        ensures
            r@ == self@.key,
    {
        match self {
            GameSettingType::Color(s) => &s.key,
            GameSettingType::String(s) => &s.key,
            GameSettingType::Float(s) => &s.key,
            GameSettingType::Int(s) => &s.key,
        }
    }

    /// The value rendered back to configuration text: colors as `r,g,b`,
    /// numbers in decimal, text verbatim.
    pub fn value(&self) -> (r: String)
        ensures
            r@ == spec_game_value_text(self@.value),
    {
        match self {
            GameSettingType::Color(s) => {
                let mut m = u8_text(s.value.0);
                m.append(",");
                let g = u8_text(s.value.1);
                m.append(g.as_str());
                m.append(",");
                let b = u8_text(s.value.2);
                m.append(b.as_str());
                assert(m@ =~= spec_game_value_text(self@.value));
                m
            },
            GameSettingType::String(s) => s.value.clone(),
            GameSettingType::Float(s) => s.value.clone(),
            GameSettingType::Int(s) => i64_text(s.value),
        }
    }

    pub fn meta(&self) -> (r: &GameSettingMeta)
        ensures
            r@ == self@.meta,
    {
        match self {
            GameSettingType::Color(s) => &s.meta,
            GameSettingType::String(s) => &s.meta,
            GameSettingType::Float(s) => &s.meta,
            GameSettingType::Int(s) => &s.meta,
        }
    }

    /// Key lookup ignores the value shape entirely.
    pub fn key_eq(&self, key: &str) -> (r: bool)
        ensures
            r == (self@.key == key@),
    {
        str_eq(self.key().as_str(), key)
    }

    /// Parses the text after `fallback=`: the part before the first comma is
    /// the key, the rest is the value, classified by shape.  A value with no
    /// comma at all is a hard error.  On success the pending comment block
    /// is consumed.
    pub fn try_from(original_value: &str, source_config: &str, comment: &mut String) -> (r: Result<
        GameSettingType,
        ConfigError,
    >)
        ensures
            match r {
                Ok(g) => {
                    &&& spec_find(original_value@, ',') is Some
                    &&& g@ == spec_game_setting(original_value@, source_config@, old(comment)@)
                    &&& final(comment)@ == Seq::<char>::empty()
                },
                Err(err) => {
                    &&& spec_find(original_value@, ',') is None
                    &&& err@ == (ErrModel::InvalidGameSetting {
                        value: original_value@,
                        config_path: source_config@,
                    })
                    &&& final(comment)@ == old(comment)@
                },
            },
    {
        let n = original_value.unicode_len();
        let i = match str_find(original_value, ',') {
            Some(i) => i,
            None => {
                return Err(
                    ConfigError::InvalidGameSetting {
                        value: original_value.to_owned(),
                        config_path: source_config.to_owned(),
                    },
                );
            },
        };
        proof {
            crate::strutil::lemma_spec_find(original_value@, ',');
        }
        let key = original_value.substring_char(0, i).to_owned();
        let rest = original_value.substring_char(i + 1, n);
        let kind = classify_game_value(rest);
        let meta = GameSettingMeta::take(source_config, comment);
        let r = match kind {
            GameValueKind::Color(a, b, c) => GameSettingType::Color(
                ColorGameSetting { meta, key, value: (a, b, c) },
            ),
            GameValueKind::Float(t) => GameSettingType::Float(
                FloatGameSetting { meta, key, value: t },
            ),
            GameValueKind::Int(v) => GameSettingType::Int(IntGameSetting { meta, key, value: v }),
            GameValueKind::Text(t) => GameSettingType::String(
                StringGameSetting { meta, key, value: t },
            ),
        };
        Ok(r)
    }

    /// The configuration line this setting serializes to.
    pub fn to_text(&self) -> (r: String)
        ensures
            r@ == spec_render(SettingModel::GameSetting(self@)),
    {
        let mut m = self.meta().comment.clone();
        m.append("fallback=");
        m.append(self.key().as_str());
        m.append(",");
        let v = self.value();
        m.append(v.as_str());
        m.append("\n");
        assert(m@ =~= spec_render(SettingModel::GameSetting(self@)));
        m
    }
}

// ---------------------------------------------------------------------------
// Equality: by key, and only between settings of the same value shape
// ---------------------------------------------------------------------------

pub open spec fn spec_same_kind(a: GameValueModel, b: GameValueModel) -> bool {
    match (a, b) {
        (GameValueModel::Color { .. }, GameValueModel::Color { .. }) => true,
        (GameValueModel::Text(_), GameValueModel::Text(_)) => true,
        (GameValueModel::Float(_), GameValueModel::Float(_)) => true,
        (GameValueModel::Int(_), GameValueModel::Int(_)) => true,
        _ => false,
    }
}

impl PartialEq for GameSettingType {
    fn eq(&self, other: &Self) -> (r: bool) {
        match (self, other) {
            (GameSettingType::Color(a), GameSettingType::Color(b)) => str_eq(
                a.key.as_str(),
                b.key.as_str(),
            ),
            (GameSettingType::String(a), GameSettingType::String(b)) => str_eq(
                a.key.as_str(),
                b.key.as_str(),
            ),
            (GameSettingType::Float(a), GameSettingType::Float(b)) => str_eq(
                a.key.as_str(),
                b.key.as_str(),
            ),
            (GameSettingType::Int(a), GameSettingType::Int(b)) => str_eq(
                a.key.as_str(),
                b.key.as_str(),
            ),
            _ => false,
        }
    }
}

impl vstd::std_specs::cmp::PartialEqSpecImpl for GameSettingType {
    open spec fn obeys_eq_spec() -> bool {
        true
    }

    open spec fn eq_spec(&self, other: &Self) -> bool {
        spec_same_kind(self@.value, other@.value) && self@.key == other@.key
    }
}

} // verus!
