use vstd::prelude::*;
use crate::GameSettingMeta;
use crate::model::{GenericModel, MetaModel};

verus! {

/// A passthrough for any directive key the format does not recognise;
/// such lines are never an error.
#[derive(Debug)]
pub struct GenericSetting {
    pub meta: GameSettingMeta,
    pub key: String,
    pub value: String,
}

impl View for GenericSetting {
    type V = GenericModel;

    open spec fn view(&self) -> GenericModel {
        GenericModel { key: self.key@, value: self.value@, meta: self.meta@ }
    }
}

impl Clone for GenericSetting {
    fn clone(&self) -> (r: Self)
        ensures
            r@ == self@,
    {
        GenericSetting {
            meta: GameSettingMeta {
                source_config: self.meta.source_config.clone(),
                comment: self.meta.comment.clone(),
            },
            key: self.key.clone(),
            value: self.value.clone(),
        }
    }
}

impl GenericSetting {
    /// Builds the record, consuming the pending comment block.
    pub fn new(key: &str, value: &str, source_config: &str, comment: &mut String) -> (r:
        GenericSetting)
        ensures
            r@ == (GenericModel {
                key: key@,
                value: value@,
                meta: MetaModel { source: source_config@, comment: old(comment)@ },
            }),
            final(comment)@ == Seq::<char>::empty(),
    {
        let meta = GameSettingMeta::take(source_config, comment);
        GenericSetting {
            meta,
            key: crate::strutil::copy_str(key),
            value: crate::strutil::copy_str(value),
        }
    }

    /// The directive key, exactly as written.
    pub fn key(&self) -> (r: &String)
        ensures
            r@ == self@.key,
    {
        &self.key
    }

    /// The directive value, exactly as written.
    pub fn value(&self) -> (r: &String)
        ensures
            r@ == self@.value,
    {
        &self.value
    }
}

} // verus!
