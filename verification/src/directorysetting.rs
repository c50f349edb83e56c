use vstd::prelude::*;
use crate::GameSettingMeta;
use crate::model::{DirModel, MetaModel};
use crate::paths::{parse_data_directory, spec_has_token, spec_resolve, lemma_resolve_no_token};

verus! {

/// A directory-valued directive: the raw text as it stood in the file, and
/// the absolute normalized path it resolves to.  `parsed` is derived once at
/// construction and never recomputed.
#[derive(Debug)]
pub struct DirectorySetting {
    pub meta: GameSettingMeta,
    pub original: String,
    pub parsed: String,
}

impl View for DirectorySetting {
    type V = DirModel;

    open spec fn view(&self) -> DirModel {
        DirModel { original: self.original@, parsed: self.parsed@, meta: self.meta@ }
    }
}

impl DeepView for DirectorySetting {
    type V = DirModel;

    open spec fn deep_view(&self) -> DirModel {
        self.view()
    }
}

impl Clone for DirectorySetting {
    fn clone(&self) -> (r: Self)
        ensures
            r@ == self@,
    {
        DirectorySetting {
            meta: GameSettingMeta {
                source_config: self.meta.source_config.clone(),
                comment: self.meta.comment.clone(),
            },
            original: self.original.clone(),
            parsed: self.parsed.clone(),
        }
    }
}

impl DirectorySetting {
    /// Builds the record with every input explicit: the raw value, the
    /// directory to resolve relative values against, the file recorded as
    /// the setting's source, and the two injected platform directories.
    /// The pending comment block is consumed.
    pub fn new_resolved(
        value: &str,
        base_dir: &str,
        source_config: &str,
        comment: &mut String,
        user_data: &str,
        user_config: &str,
    ) -> (r: DirectorySetting)
        ensures
            r@.original == value@,
            r@.parsed == spec_resolve(base_dir@, value@, user_data@, user_config@),
            r@.meta == (MetaModel { source: source_config@, comment: old(comment)@ }),
            final(comment)@ == Seq::<char>::empty(),
    {
        let parsed = parse_data_directory(base_dir, value, user_data, user_config);
        let meta = GameSettingMeta::take(source_config, comment);
        DirectorySetting { meta, original: crate::strutil::copy_str(value), parsed }
    }

    /// Builds the record the way a caller outside the loader sees it: the
    /// one path given is both the base directory for resolution and the
    /// recorded source, and the platform default directories (empty when
    /// the platform defines none) stand in for the path tokens.
    pub fn new(value: &str, source_config: String, comment: &mut String) -> (r: DirectorySetting)
        ensures
            r@.original == value@,
            r@.meta == (MetaModel { source: source_config@, comment: old(comment)@ }),
            final(comment)@ == Seq::<char>::empty(),
            !spec_has_token(value@) ==> r@.parsed == spec_resolve(
                source_config@,
                value@,
                Seq::<char>::empty(),
                Seq::<char>::empty(),
            ),
            exists|ud: Seq<char>, uc: Seq<char>| r@.parsed == spec_resolve(
                source_config@,
                value@,
                ud,
                uc,
            ),
    {
        let user_data = match crate::defaults::default_userdata_path() {
            Some(d) => d,
            None => String::new(),
        };
        let user_config = match crate::defaults::default_config_path() {
            Some(d) => d,
            None => String::new(),
        };
        let r = DirectorySetting::new_resolved(
            value,
            source_config.as_str(),
            source_config.as_str(),
            comment,
            user_data.as_str(),
            user_config.as_str(),
        );
        proof {
            lemma_resolve_no_token(source_config@, value@, user_data@, user_config@);
            assert(r@.parsed == spec_resolve(source_config@, value@, user_data@, user_config@));
        }
        r
    }

    /// The raw unresolved text, byte for byte as the file held it.
    pub fn original(&self) -> (r: &String)
        ensures
            r@ == self@.original,
    {
        &self.original
    }

    /// The absolute normalized path the value resolves to.
    pub fn parsed(&self) -> (r: &String)
        ensures
            r@ == self@.parsed,
    {
        &self.parsed
    }
}

} // verus!
