//! Resolves a chain of hierarchical, plain-text configuration files into one
//! ordered, typed, in-memory model, and serializes a designated file of the
//! chain back to text losslessly: comments, key order and original unresolved
//! values are preserved.  The loader works over an in-memory file store that
//! the caller fills; everything it decides is specified and verified, from
//! quote and token handling in the path resolver to the depth-first traversal
//! of `config=` references and the last-wins override rules.

use vstd::prelude::*;

pub mod config;
pub mod defaults;
pub mod directorysetting;
pub mod encodingsetting;
pub mod error;
pub mod filesetting;
pub mod gamesetting;
pub mod genericsetting;
pub mod laws;
pub mod loader;
pub mod model;
pub mod numparse;
pub mod paths;
pub mod strutil;
pub mod util;

pub use config::{FileStore, OpenMWConfiguration, PathDefaults, SettingValue, SERIALIZER_TRAILER};
pub use defaults::{default_config_path, default_data_local_path, default_userdata_path};
pub use directorysetting::DirectorySetting;
pub use encodingsetting::{EncodingSetting, EncodingType};
pub use error::ConfigError;
pub use filesetting::FileSetting;
pub use gamesetting::{ColorGameSetting, FloatGameSetting, GameSettingType, IntGameSetting, StringGameSetting, parse_color_value};
pub use genericsetting::GenericSetting;
pub use loader::sub_config_files;
pub use paths::{parse_data_directory, strip_special_components};

verus! {

/// Provenance shared by every directive: the path of the configuration file
/// that declared it, and the verbatim comment/blank-line block that stood
/// directly above it in that file.
#[derive(Debug, Clone)]
pub struct GameSettingMeta {
    pub source_config: String,
    pub comment: String,
}

impl View for GameSettingMeta {
    type V = model::MetaModel;

    open spec fn view(&self) -> model::MetaModel {
        model::MetaModel { source: self.source_config@, comment: self.comment@ }
    }
}

impl GameSettingMeta {
    pub fn new(source_config: String, comment: String) -> (r: GameSettingMeta)
        ensures
            r.source_config@ == source_config@,
            r.comment@ == comment@,
    {
        GameSettingMeta { source_config, comment }
    }

    /// Builds provenance for a new setting, consuming the pending comment
    /// block: the block moves into the record and the buffer is left empty.
    pub fn take(source_config: &str, comment: &mut String) -> (r: GameSettingMeta)
        ensures
            r@ == (model::MetaModel { source: source_config@, comment: old(comment)@ }),
            final(comment)@ == Seq::<char>::empty(),
    {
        let c = strutil::take_string(comment);
        GameSettingMeta { source_config: strutil::copy_str(source_config), comment: c }
    }
}

} // verus!
