use vstd::prelude::*;
use vstd::string::StringExecFns;
use crate::GameSettingMeta;
use crate::error::{ConfigError, ErrModel};
use crate::model::{EncodingModel, MetaModel, SettingModel, spec_render};
use crate::strutil::str_eq;

verus! {

/// The closed set of code pages a configuration may select.
#[derive(Debug, Clone, Copy, PartialEq, Eq, Structural)]
pub enum EncodingType {
    WIN1250,
    WIN1251,
    WIN1252,
}

impl EncodingType {
    /// The spelling used in configuration text.
    pub fn as_text(&self) -> (r: String)
        ensures
            r@ == crate::model::spec_encoding_text(*self),
    {
        match self {
            EncodingType::WIN1250 => "win1250".to_owned(),
            EncodingType::WIN1251 => "win1251".to_owned(),
            EncodingType::WIN1252 => "win1252".to_owned(),
        }
    }
}

/// Which `EncodingType` a raw `encoding=` value selects, if any.
pub open spec fn spec_parse_encoding(v: Seq<char>) -> Option<EncodingType> {
    if v == "win1250"@ {
        Some(EncodingType::WIN1250)
    } else if v == "win1251"@ {
        Some(EncodingType::WIN1251)
    } else if v == "win1252"@ {
        Some(EncodingType::WIN1252)
    } else {
        None
    }
}

/// The selected code page of the chain, with its provenance.
#[derive(Debug)]
pub struct EncodingSetting {
    pub meta: GameSettingMeta,
    pub encoding: EncodingType,
}

impl Clone for EncodingSetting {
    fn clone(&self) -> (r: Self)
        ensures
            r@ == self@,
    {
        EncodingSetting {
            meta: GameSettingMeta {
                source_config: self.meta.source_config.clone(),
                comment: self.meta.comment.clone(),
            },
            encoding: self.encoding,
        }
    }
}

impl View for EncodingSetting {
    type V = EncodingModel;

    open spec fn view(&self) -> EncodingModel {
        EncodingModel { encoding: self.encoding, meta: self.meta@ }
    }
}

impl PartialEq for EncodingSetting {
    /// Identity is the selected code page alone; provenance plays no part.
    fn eq(&self, other: &Self) -> bool {
        self.encoding == other.encoding
    }
}

impl vstd::std_specs::cmp::PartialEqSpecImpl for EncodingSetting {
    open spec fn obeys_eq_spec() -> bool {
        true
    }

    open spec fn eq_spec(&self, other: &Self) -> bool {
        self@.encoding == other@.encoding
    }
}

impl EncodingSetting {
    /// Parses an `encoding=` value against the closed set; an unknown value
    /// is a hard error.  On success the pending comment block is consumed.
    pub fn try_from(value: &str, source_config: &str, comment: &mut String) -> (r: Result<
        EncodingSetting,
        ConfigError,
    >)
        ensures
            match r {
                Ok(e) => {
                    &&& spec_parse_encoding(value@) == Some(e.encoding)
                    &&& e@.meta == (MetaModel { source: source_config@, comment: old(comment)@ })
                    &&& final(comment)@ == Seq::<char>::empty()
                },
                Err(err) => {
                    &&& spec_parse_encoding(value@) is None
                    &&& err@ == (ErrModel::BadEncoding {
                        value: value@,
                        config_path: source_config@,
                    })
                    &&& final(comment)@ == old(comment)@
                },
            },
    {
        let encoding: EncodingType = if str_eq(value, "win1250") {
            EncodingType::WIN1250
        } else if str_eq(value, "win1251") {
            EncodingType::WIN1251
        } else if str_eq(value, "win1252") {
            EncodingType::WIN1252
        } else {
            return Err(
                ConfigError::BadEncoding {
                    value: value.to_owned(),
                    config_path: source_config.to_owned(),
                },
            );
        };
        let meta = GameSettingMeta::take(source_config, comment);
        Ok(EncodingSetting { meta, encoding })
    }

    /// The configuration line this setting serializes to.
    pub fn to_text(&self) -> (r: String)
        ensures
            r@ == spec_render(SettingModel::Encoding(self@)),
    {
        let mut m = self.meta.comment.clone();
        m.append("encoding=");
        let t = self.encoding.as_text();
        m.append(t.as_str());
        m.append("\n");
        assert(m@ =~= spec_render(SettingModel::Encoding(self@)));
        m
    }
}

} // verus!
