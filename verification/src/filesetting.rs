use vstd::prelude::*;
use crate::GameSettingMeta;
use crate::model::{FileModel, MetaModel};

verus! {

/// A file-valued directive (a content file, archive or groundcover entry):
/// a bare filename whose identity is the name alone.
#[derive(Debug)]
pub struct FileSetting {
    pub meta: GameSettingMeta,
    pub value: String,
}

impl View for FileSetting {
    type V = FileModel;

    open spec fn view(&self) -> FileModel {
        FileModel { value: self.value@, meta: self.meta@ }
    }
}

impl DeepView for FileSetting {
    type V = FileModel;

    open spec fn deep_view(&self) -> FileModel {
        self.view()
    }
}

impl Clone for FileSetting {
    fn clone(&self) -> (r: Self)
        ensures
            r@ == self@,
    {
        FileSetting {
            meta: GameSettingMeta {
                source_config: self.meta.source_config.clone(),
                comment: self.meta.comment.clone(),
            },
            value: self.value.clone(),
        }
    }
}

impl PartialEq for FileSetting {
    /// Identity is the filename alone; provenance plays no part.
    fn eq(&self, other: &Self) -> bool {
        crate::strutil::str_eq(self.value.as_str(), other.value.as_str())
    }
}

impl vstd::std_specs::cmp::PartialEqSpecImpl for FileSetting {
    open spec fn obeys_eq_spec() -> bool {
        true
    }

    open spec fn eq_spec(&self, other: &Self) -> bool {
        self@.value == other@.value
    }
}

impl FileSetting {
    /// Builds the record, consuming the pending comment block.
    pub fn new(value: &str, source_config: &str, comment: &mut String) -> (r: FileSetting)
        ensures
            r@ == (FileModel {
                value: value@,
                meta: MetaModel { source: source_config@, comment: old(comment)@ },
            }),
            final(comment)@ == Seq::<char>::empty(),
    {
        let meta = GameSettingMeta::take(source_config, comment);
        FileSetting { meta, value: crate::strutil::copy_str(value) }
    }

    /// The bare filename.
    pub fn value(&self) -> (r: &String)
        ensures
            r@ == self@.value,
    {
        &self.value
    }
}

} // verus!
