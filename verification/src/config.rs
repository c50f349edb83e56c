use vstd::prelude::*;
use vstd::string::StringExecFns;
use crate::GameSettingMeta;
use crate::directorysetting::DirectorySetting;
use crate::encodingsetting::EncodingSetting;
use crate::filesetting::FileSetting;
use crate::gamesetting::GameSettingType;
use crate::genericsetting::GenericSetting;
use crate::error::{ConfigError, ErrModel};
use crate::model::{FileModel, MetaModel, SettingModel, ConfigModel, SettingKind, spec_render, is_kind, spec_last_kind,
    spec_first_kind, lemma_last_kind_some, lemma_last_kind_none, lemma_first_kind_some,
    lemma_first_kind_none, spec_remove_kind, spec_last_game_key, lemma_last_game_key_some,
    lemma_last_game_key_none, has_file_value, spec_first_file_value, lemma_first_file_value_some,
    lemma_first_file_value_none};
use crate::paths::{join_path, parent_dir, spec_join, spec_parent, spec_resolve};
use crate::strutil::str_eq;

verus! {

/// The fixed line the serializer appends after a file's settings, recording
/// the format version.
pub const SERIALIZER_TRAILER: &'static str = "# OpenMW-Config Serializer Version: 0.1.0\n";

// ---------------------------------------------------------------------------
// One directive of the chain, tagged by kind
// ---------------------------------------------------------------------------

/// A single directive as the loader stored it.  The variant is the directive
/// key; the payload carries the value and its provenance.
#[derive(Debug)]
pub enum SettingValue {
    DataDirectory(DirectorySetting),
    GameSetting(GameSettingType),
    UserData(DirectorySetting),
    DataLocal(DirectorySetting),
    Resources(DirectorySetting),
    Encoding(EncodingSetting),
    SubConfiguration(DirectorySetting),
    Generic(GenericSetting),
    ContentFile(FileSetting),
    BethArchive(FileSetting),
    Groundcover(FileSetting),
}

impl View for SettingValue {
    type V = SettingModel;

    open spec fn view(&self) -> SettingModel {
        match self {
            SettingValue::DataDirectory(d) => SettingModel::DataDirectory(d@),
            SettingValue::GameSetting(g) => SettingModel::GameSetting(g@),
            SettingValue::UserData(d) => SettingModel::UserData(d@),
            SettingValue::DataLocal(d) => SettingModel::DataLocal(d@),
            SettingValue::Resources(d) => SettingModel::Resources(d@),
            SettingValue::Encoding(e) => SettingModel::Encoding(e@),
            SettingValue::SubConfiguration(d) => SettingModel::SubConfiguration(d@),
            SettingValue::Generic(g) => SettingModel::Generic(g@),
            SettingValue::ContentFile(f) => SettingModel::ContentFile(f@),
            SettingValue::BethArchive(f) => SettingModel::BethArchive(f@),
            SettingValue::Groundcover(f) => SettingModel::Groundcover(f@),
        }
    }
}

impl DeepView for SettingValue {
    type V = SettingModel;

    open spec fn deep_view(&self) -> SettingModel {
        self.view()
    }
}

impl Clone for SettingValue {
    fn clone(&self) -> (r: Self)
        ensures
            r@ == self@,
    {
        match self {
            SettingValue::DataDirectory(d) => SettingValue::DataDirectory(d.clone()),
            SettingValue::GameSetting(g) => SettingValue::GameSetting(g.clone()),
            SettingValue::UserData(d) => SettingValue::UserData(d.clone()),
            SettingValue::DataLocal(d) => SettingValue::DataLocal(d.clone()),
            SettingValue::Resources(d) => SettingValue::Resources(d.clone()),
            SettingValue::Encoding(e) => SettingValue::Encoding(e.clone()),
            SettingValue::SubConfiguration(d) => SettingValue::SubConfiguration(d.clone()),
            SettingValue::Generic(g) => SettingValue::Generic(g.clone()),
            SettingValue::ContentFile(f) => SettingValue::ContentFile(f.clone()),
            SettingValue::BethArchive(f) => SettingValue::BethArchive(f.clone()),
            SettingValue::Groundcover(f) => SettingValue::Groundcover(f.clone()),
        }
    }
}

impl SettingValue {
    /// The provenance of the directive, whatever its kind.
    pub fn meta(&self) -> (r: &GameSettingMeta)
        ensures
            r@ == self@.meta(),
    {
        match self {
            SettingValue::BethArchive(s) => &s.meta,
            SettingValue::Groundcover(s) => &s.meta,
            SettingValue::UserData(s) => &s.meta,
            SettingValue::DataLocal(s) => &s.meta,
            SettingValue::DataDirectory(s) => &s.meta,
            SettingValue::ContentFile(s) => &s.meta,
            SettingValue::GameSetting(s) => s.meta(),
            SettingValue::Resources(s) => &s.meta,
            SettingValue::SubConfiguration(s) => &s.meta,
            SettingValue::Encoding(s) => &s.meta,
            SettingValue::Generic(s) => &s.meta,
        }
    }

    /// The line block this directive serializes to: its comment, then
    /// `key=value` with a trailing newline.
    pub fn to_text(&self) -> (r: String)
        ensures
            r@ == spec_render(self@),
    {
        match self {
            SettingValue::Encoding(e) => e.to_text(),
            SettingValue::GameSetting(g) => g.to_text(),
            SettingValue::UserData(s) => {
                let mut m = s.meta.comment.clone();
                m.append("user-data=");
                m.append(s.original.as_str());
                m.append("\n");
                assert(m@ =~= spec_render(self@));
                m
            },
            SettingValue::DataLocal(s) => {
                let mut m = s.meta.comment.clone();
                m.append("data-local=");
                m.append(s.original.as_str());
                m.append("\n");
                assert(m@ =~= spec_render(self@));
                m
            },
            SettingValue::Resources(s) => {
                let mut m = s.meta.comment.clone();
                m.append("resources=");
                m.append(s.original.as_str());
                m.append("\n");
                assert(m@ =~= spec_render(self@));
                m
            },
            SettingValue::DataDirectory(s) => {
                let mut m = s.meta.comment.clone();
                m.append("data=");
                m.append(s.original.as_str());
                m.append("\n");
                assert(m@ =~= spec_render(self@));
                m
            },
            SettingValue::SubConfiguration(s) => {
                let mut m = s.meta.comment.clone();
                m.append("config=");
                m.append(s.original.as_str());
                m.append("\n");
                assert(m@ =~= spec_render(self@));
                m
            },
            SettingValue::Generic(s) => {
                let mut m = s.meta.comment.clone();
                m.append(s.key.as_str());
                m.append("=");
                m.append(s.value.as_str());
                m.append("\n");
                assert(m@ =~= spec_render(self@));
                m
            },
            SettingValue::ContentFile(s) => {
                let mut m = s.meta.comment.clone();
                m.append("content=");
                m.append(s.value.as_str());
                m.append("\n");
                assert(m@ =~= spec_render(self@));
                m
            },
            SettingValue::BethArchive(s) => {
                let mut m = s.meta.comment.clone();
                m.append("fallback-archive=");
                m.append(s.value.as_str());
                m.append("\n");
                assert(m@ =~= spec_render(self@));
                m
            },
            SettingValue::Groundcover(s) => {
                let mut m = s.meta.comment.clone();
                m.append("groundcover=");
                m.append(s.value.as_str());
                m.append("\n");
                assert(m@ =~= spec_render(self@));
                m
            },
        }
    }
}

/// The models of a settings sequence, elementwise.
pub open spec fn models(s: Seq<SettingValue>) -> Seq<SettingModel> {
    Seq::new(s.len(), |i: int| s[i]@)
}

// ---------------------------------------------------------------------------
// The in-memory file tree the loader reads from
// ---------------------------------------------------------------------------

/// The configuration files available to the loader, as `(path, text)`
/// pairs.  The caller reads them from wherever they live and hands them in;
/// the loader itself never touches the filesystem.
#[derive(Debug)]
pub struct FileStore {
    pub files: Vec<(String, String)>,
}

impl View for FileStore {
    type V = Seq<(Seq<char>, Seq<char>)>;

    open spec fn view(&self) -> Seq<(Seq<char>, Seq<char>)> {
        Seq::new(self.files@.len(), |i: int| (self.files@[i].0@, self.files@[i].1@))
    }
}

/// The text filed under `path`, searching from the front.
pub open spec fn spec_lookup_from(fs: Seq<(Seq<char>, Seq<char>)>, i: int, path: Seq<char>) -> Option<
    Seq<char>,
>
    decreases fs.len() - i,
{
    if i < 0 || i >= fs.len() {
        None
    } else if fs[i].0 == path {
        Some(fs[i].1)
    } else {
        spec_lookup_from(fs, i + 1, path)
    }
}

pub open spec fn spec_lookup(fs: Seq<(Seq<char>, Seq<char>)>, path: Seq<char>) -> Option<
    Seq<char>,
> {
    spec_lookup_from(fs, 0, path)
}

impl FileStore {
    pub fn new() -> (r: FileStore)
        ensures
            r@ == Seq::<(Seq<char>, Seq<char>)>::empty(),
    {
        let r = FileStore { files: Vec::new() };
        proof {
            assert(r@ =~= Seq::<(Seq<char>, Seq<char>)>::empty());
        }
        r
    }

    /// Files earlier in the store shadow later ones of the same path.
    pub fn add(&mut self, path: String, text: String)
        ensures
            final(self)@ == old(self)@.push((path@, text@)),
    {
        let ghost v0 = self@;
        self.files.push((path, text));
        proof {
            assert(self@ =~= v0.push((path@, text@)));
        }
    }

    pub fn lookup(&self, path: &str) -> (r: Option<&String>)
        ensures
            match r {
                Some(t) => spec_lookup(self@, path@) == Some(t@),
                None => spec_lookup(self@, path@) is None,
            },
    {
        let n = self.files.len();
        let mut i: usize = 0;
        while i < n
            invariant
                n == self.files.len(),
                i <= n,
                spec_lookup(self@, path@) == spec_lookup_from(self@, i as int, path@),
            decreases n - i,
        {
            if str_eq(self.files[i].0.as_str(), path) {
                return Some(&self.files[i].1);
            }
            i += 1;
        }
        None
    }

    pub fn contains(&self, path: &str) -> (r: bool)
        ensures
            r == (spec_lookup(self@, path@) is Some),
    {
        match self.lookup(path) {
            Some(_) => true,
            None => false,
        }
    }
}

// ---------------------------------------------------------------------------
// Injected platform directories
// ---------------------------------------------------------------------------

/// The two platform directories the resolver substitutes for the
/// `?userdata?` and `?userconfig?` tokens.  They are supplied by the
/// caller; the chain loader itself performs no platform lookup.
#[derive(Debug)]
pub struct PathDefaults {
    pub user_data: String,
    pub user_config: String,
}

impl PathDefaults {
    pub fn new(user_data: String, user_config: String) -> (r: PathDefaults)
        ensures
            r.user_data@ == user_data@,
            r.user_config@ == user_config@,
    {
        PathDefaults { user_data, user_config }
    }
}

// ---------------------------------------------------------------------------
// The composed configuration
// ---------------------------------------------------------------------------

/// The composed configuration after the whole chain has been resolved: the
/// root file's path, and every directive of the chain in traversal order.
#[derive(Debug)]
pub struct OpenMWConfiguration {
    pub root_config: String,
    pub settings: Vec<SettingValue>,
}

impl Default for OpenMWConfiguration {
    /// An empty configuration: no root and no settings.
    fn default() -> (r: Self)
        ensures
            r@.root == Seq::<char>::empty(),
            r@.settings == Seq::<SettingModel>::empty(),
    {
        let r = OpenMWConfiguration { root_config: String::new(), settings: Vec::new() };
        proof {
            assert(models(r.settings@) =~= Seq::<SettingModel>::empty());
        }
        r
    }
}

impl View for OpenMWConfiguration {
    type V = ConfigModel;

    open spec fn view(&self) -> ConfigModel {
        ConfigModel { root: self.root_config@, settings: models(self.settings@) }
    }
}


// ---------------------------------------------------------------------------
// Category projections of the settings sequence
// ---------------------------------------------------------------------------

/// The content-file names of the chain, in order.
pub open spec fn spec_content_values(s: Seq<SettingModel>) -> Seq<Seq<char>>
    decreases s.len(),
{
    if s.len() == 0 {
        Seq::empty()
    } else {
        spec_content_values(s.drop_last()) + (match s.last() {
            SettingModel::ContentFile(f) => seq![f.value],
            _ => Seq::empty(),
        })
    }
}

/// The groundcover names of the chain, in order.
pub open spec fn spec_groundcover_values(s: Seq<SettingModel>) -> Seq<Seq<char>>
    decreases s.len(),
{
    if s.len() == 0 {
        Seq::empty()
    } else {
        spec_groundcover_values(s.drop_last()) + (match s.last() {
            SettingModel::Groundcover(f) => seq![f.value],
            _ => Seq::empty(),
        })
    }
}

/// The archive names of the chain, in order.
pub open spec fn spec_archive_values(s: Seq<SettingModel>) -> Seq<Seq<char>>
    decreases s.len(),
{
    if s.len() == 0 {
        Seq::empty()
    } else {
        spec_archive_values(s.drop_last()) + (match s.last() {
            SettingModel::BethArchive(f) => seq![f.value],
            _ => Seq::empty(),
        })
    }
}

/// The resolved data directories of the chain, in order.
pub open spec fn spec_data_dir_paths(s: Seq<SettingModel>) -> Seq<Seq<char>>
    decreases s.len(),
{
    if s.len() == 0 {
        Seq::empty()
    } else {
        spec_data_dir_paths(s.drop_last()) + (match s.last() {
            SettingModel::DataDirectory(d) => seq![d.parsed],
            _ => Seq::empty(),
        })
    }
}

/// The sub-configuration entries of the chain, in order.
pub open spec fn spec_sub_configs(s: Seq<SettingModel>) -> Seq<crate::model::DirModel>
    decreases s.len(),
{
    if s.len() == 0 {
        Seq::empty()
    } else {
        spec_sub_configs(s.drop_last()) + (match s.last() {
            SettingModel::SubConfiguration(d) => seq![d],
            _ => Seq::empty(),
        })
    }
}

// ---------------------------------------------------------------------------
// Serialization
// ---------------------------------------------------------------------------

/// The serialized text of the settings that one file owns, in stored order.
pub open spec fn spec_serialize_for(s: Seq<SettingModel>, source: Seq<char>) -> Seq<char>
    decreases s.len(),
{
    if s.len() == 0 {
        Seq::empty()
    } else {
        spec_serialize_for(s.drop_last(), source) + (if s.last().meta().source == source {
            spec_render(s.last())
        } else {
            Seq::empty()
        })
    }
}

/// The serialized text of the whole composed configuration, in stored order.
pub open spec fn spec_serialize_all(s: Seq<SettingModel>) -> Seq<char>
    decreases s.len(),
{
    if s.len() == 0 {
        Seq::empty()
    } else {
        spec_serialize_all(s.drop_last()) + spec_render(s.last())
    }
}

/// The directory whose configuration file counts as the user's own: the
/// last sub-configuration of the chain, or the root's directory when the
/// chain never forked.
pub open spec fn spec_user_config_dir(c: ConfigModel) -> Seq<char> {
    match spec_last_kind(c.settings, SettingKind::SubConfiguration) {
        Some(i) => c.settings[i]->SubConfiguration_0.parsed,
        None => spec_parent(c.root)->Some_0,
    }
}

impl OpenMWConfiguration {
    /// Path of the file the chain was opened from.
    pub fn root_config_file(&self) -> (r: &String)
        ensures
            r@ == self@.root,
    {
        &self.root_config
    }

    /// The directory the root file sits in.
    pub fn root_config_dir(&self) -> (r: String)
        requires
            spec_parent(self@.root) is Some,
        ensures
            Some(r@) == spec_parent(self@.root),
    {
        match parent_dir(self.root_config.as_str()) {
            Some(d) => d,
            None => {
                proof {
                    assert(false);
                }
                String::new()
            },
        }
    }

    /// Direct read access to the ordered settings of the chain.
    pub fn settings(&self) -> (r: &Vec<SettingValue>)
        ensures
            models(r@) == self@.settings,
    {
        &self.settings
    }

    /// The last sub-configuration directory of the chain, or the root's own
    /// directory: the place whose `openmw.cfg` is the editable one.
    pub fn user_config_path(&self) -> (r: String)
        requires
            spec_parent(self@.root) is Some,
        ensures
            r@ == spec_user_config_dir(self@),
    {
        let ghost sv = models(self.settings@);
        let n = self.settings.len();
        let mut i: usize = n;
        while i > 0
            invariant
                n == self.settings.len(),
                i <= n,
                sv == models(self.settings@),
                forall|j: int| i <= j < n ==> !is_kind(#[trigger] sv[j], SettingKind::SubConfiguration),
            decreases i,
        {
            i = i - 1;
            let item = &self.settings[i];
            assert(item@ == sv[i as int]);
            match item {
                SettingValue::SubConfiguration(d) => {
                    proof {
                        assert(is_kind(sv[i as int], SettingKind::SubConfiguration));
                        lemma_last_kind_some(sv, SettingKind::SubConfiguration, i as int);
                    }
                    return d.parsed.clone();
                },
                _ => {
                    assert(!is_kind(sv[i as int], SettingKind::SubConfiguration));
                },
            }
        }
        proof {
            lemma_last_kind_none(sv, SettingKind::SubConfiguration);
        }
        self.root_config_dir()
    }

    /// Whether the root file is itself the user configuration.
    pub fn is_user_config(&self) -> (r: bool)
        requires
            spec_parent(self@.root) is Some,
        ensures
            r == (spec_parent(self@.root)->Some_0 == spec_user_config_dir(self@)),
    {
        let a = self.root_config_dir();
        let b = self.user_config_path();
        str_eq(a.as_str(), b.as_str())
    }

    /// The serialized text of the settings that `source` owns, with the
    /// serializer's trailer line appended.
    pub fn serialized_for(&self, source: &str) -> (r: String)
        ensures
            r@ == spec_serialize_for(self@.settings, source@) + SERIALIZER_TRAILER@,
    {
        let ghost sv = models(self.settings@);
        let mut out = String::new();
        let n = self.settings.len();
        let mut i: usize = 0;
        proof {
            assert(out@ =~= spec_serialize_for(sv.subrange(0, 0), source@));
        }
        while i < n
            invariant
                n == self.settings.len(),
                i <= n,
                sv == models(self.settings@),
                out@ == spec_serialize_for(sv.subrange(0, i as int), source@),
            decreases n - i,
        {
            let ghost out0 = out@;
            let item = &self.settings[i];
            assert(item@ == sv[i as int]);
            if str_eq(item.meta().source_config.as_str(), source) {
                let t = item.to_text();
                out.append(t.as_str());
            }
            proof {
                let pre1 = sv.subrange(0, i + 1);
                assert(pre1.drop_last() =~= sv.subrange(0, i as int));
                assert(pre1.last() == sv[i as int]);
            }
            i += 1;
        }
        proof {
            assert(sv.subrange(0, n as int) =~= sv);
        }
        out.append(SERIALIZER_TRAILER);
        out
    }

    /// The serialized text of the whole composed configuration, trailer
    /// included.  The chain is merged: origins are not separated here.
    pub fn to_text(&self) -> (r: String)
        ensures
            r@ == spec_serialize_all(self@.settings) + SERIALIZER_TRAILER@,
    {
        let ghost sv = models(self.settings@);
        let mut out = String::new();
        let n = self.settings.len();
        let mut i: usize = 0;
        proof {
            assert(out@ =~= spec_serialize_all(sv.subrange(0, 0)));
        }
        while i < n
            invariant
                n == self.settings.len(),
                i <= n,
                sv == models(self.settings@),
                out@ == spec_serialize_all(sv.subrange(0, i as int)),
            decreases n - i,
        {
            let item = &self.settings[i];
            assert(item@ == sv[i as int]);
            let t = item.to_text();
            out.append(t.as_str());
            proof {
                let pre1 = sv.subrange(0, i + 1);
                assert(pre1.drop_last() =~= sv.subrange(0, i as int));
                assert(pre1.last() == sv[i as int]);
            }
            i += 1;
        }
        proof {
            assert(sv.subrange(0, n as int) =~= sv);
        }
        out.append(SERIALIZER_TRAILER);
        out
    }
}


// ---------------------------------------------------------------------------
// Models of sequence edits
// ---------------------------------------------------------------------------

pub(crate) proof fn lemma_models_push(v: Seq<SettingValue>, x: SettingValue)
    ensures
        models(v.push(x)) =~= models(v).push(x@),
{
    assert forall|j: int| 0 <= j < v.len() + 1 implies models(v.push(x))[j] == models(v).push(
        x@,
    )[j] by {
        if j < v.len() {
            assert(v.push(x)[j] == v[j]);
        } else {
            assert(v.push(x)[j] == x);
        }
    }
}

pub(crate) proof fn lemma_models_remove(v: Seq<SettingValue>, i: int)
    requires
        0 <= i < v.len(),
    ensures
        models(v.remove(i)) =~= models(v).remove(i),
{
    v.remove_ensures(i);
    models(v).remove_ensures(i);
    assert(models(v.remove(i)).len() == models(v).remove(i).len());
    assert forall|j: int| 0 <= j < v.len() - 1 implies models(v.remove(i))[j] == models(
        v,
    ).remove(i)[j] by {
        if j < i {
            assert(v.remove(i)[j] == v[j]);
            assert(models(v).remove(i)[j] == models(v)[j]);
        } else {
            assert(v.remove(i)[j] == v[j + 1]);
            assert(models(v).remove(i)[j] == models(v)[j + 1]);
        }
    }
}

pub(crate) proof fn lemma_models_insert(v: Seq<SettingValue>, i: int, x: SettingValue)
    requires
        0 <= i <= v.len(),
    ensures
        models(v.insert(i, x)) =~= models(v).insert(i, x@),
{
    assert forall|j: int| 0 <= j < v.len() + 1 implies models(v.insert(i, x))[j] == models(
        v,
    ).insert(i, x@)[j] by {
        v.insert_ensures(i, x);
        models(v).insert_ensures(i, x@);
        if j < i {
            assert(v.insert(i, x)[j] == v[j]);
        } else if j == i {
            assert(v.insert(i, x)[j] == x);
        } else {
            assert(v.insert(i, x)[j] == v[j - 1]);
            assert(models(v).insert(i, x@)[j] == models(v)[j - 1]);
        }
    }
}

// ---------------------------------------------------------------------------
// Category tests on stored settings
// ---------------------------------------------------------------------------

/// The category tag of a stored setting.
pub fn kind_of(s: &SettingValue) -> (r: SettingKind)
    ensures
        forall|k: SettingKind| is_kind(s@, k) == (k == r),
{
    match s {
        SettingValue::DataDirectory(_) => SettingKind::DataDirectory,
        SettingValue::GameSetting(_) => SettingKind::GameSetting,
        SettingValue::UserData(_) => SettingKind::UserData,
        SettingValue::DataLocal(_) => SettingKind::DataLocal,
        SettingValue::Resources(_) => SettingKind::Resources,
        SettingValue::Encoding(_) => SettingKind::Encoding,
        SettingValue::SubConfiguration(_) => SettingKind::SubConfiguration,
        SettingValue::Generic(_) => SettingKind::Generic,
        SettingValue::ContentFile(_) => SettingKind::ContentFile,
        SettingValue::BethArchive(_) => SettingKind::BethArchive,
        SettingValue::Groundcover(_) => SettingKind::Groundcover,
    }
}

/// Whether the setting is a file-valued entry of category `k` named `v`.
pub(crate) fn matches_file_value(s: &SettingValue, k: SettingKind, v: &str) -> (r: bool)
    ensures
        r == has_file_value(s@, k, v@),
{
    match s {
        SettingValue::ContentFile(f) => k == SettingKind::ContentFile && str_eq(
            f.value.as_str(),
            v,
        ),
        SettingValue::BethArchive(f) => k == SettingKind::BethArchive && str_eq(
            f.value.as_str(),
            v,
        ),
        SettingValue::Groundcover(f) => k == SettingKind::Groundcover && str_eq(
            f.value.as_str(),
            v,
        ),
        _ => false,
    }
}

/// Index of the first stored setting of the category, if any.
pub(crate) fn first_index_of_kind(settings: &Vec<SettingValue>, k: SettingKind) -> (r: Option<usize>)
    ensures
        match r {
            Some(i) => i < settings@.len() && spec_first_kind(models(settings@), k) == Some(
                i as int,
            ),
            None => spec_first_kind(models(settings@), k) is None,
        },
{
    let ghost sv = models(settings@);
    let n = settings.len();
    let mut i: usize = 0;
    while i < n
        invariant
            n == settings.len(),
            i <= n,
            sv == models(settings@),
            forall|j: int| 0 <= j < i ==> !is_kind(#[trigger] sv[j], k),
        decreases n - i,
    {
        let item = &settings[i];
        assert(item@ == sv[i as int]);
        if kind_of(item) == k {
            proof {
                lemma_first_kind_some(sv, k, i as int);
            }
            return Some(i);
        }
        i += 1;
    }
    proof {
        lemma_first_kind_none(sv, k);
    }
    None
}

impl OpenMWConfiguration {
    /// The effective user-data directory: the last `user-data=` of the chain.
    pub fn userdata(&self) -> (r: Option<&DirectorySetting>)
        ensures
            match spec_last_kind(self@.settings, SettingKind::UserData) {
                Some(i) => r is Some && r->Some_0@ == self@.settings[i]->UserData_0,
                None => r is None,
            },
    {
        let ghost sv = models(self.settings@);
        let n = self.settings.len();
        let mut i: usize = n;
        while i > 0
            invariant
                n == self.settings.len(),
                i <= n,
                sv == models(self.settings@),
                forall|j: int| i <= j < n ==> !is_kind(#[trigger] sv[j], SettingKind::UserData),
            decreases i,
        {
            i = i - 1;
            let item = &self.settings[i];
            assert(item@ == sv[i as int]);
            match item {
                SettingValue::UserData(d) => {
                    proof {
                        lemma_last_kind_some(sv, SettingKind::UserData, i as int);
                    }
                    return Some(d);
                },
                _ => {
                    assert(!is_kind(sv[i as int], SettingKind::UserData));
                },
            }
        }
        proof {
            lemma_last_kind_none(sv, SettingKind::UserData);
        }
        None
    }

    /// The effective resources directory: the last `resources=` of the chain.
    pub fn resources(&self) -> (r: Option<&DirectorySetting>)
        ensures
            match spec_last_kind(self@.settings, SettingKind::Resources) {
                Some(i) => r is Some && r->Some_0@ == self@.settings[i]->Resources_0,
                None => r is None,
            },
    {
        let ghost sv = models(self.settings@);
        let n = self.settings.len();
        let mut i: usize = n;
        while i > 0
            invariant
                n == self.settings.len(),
                i <= n,
                sv == models(self.settings@),
                forall|j: int| i <= j < n ==> !is_kind(#[trigger] sv[j], SettingKind::Resources),
            decreases i,
        {
            i = i - 1;
            let item = &self.settings[i];
            assert(item@ == sv[i as int]);
            match item {
                SettingValue::Resources(d) => {
                    proof {
                        lemma_last_kind_some(sv, SettingKind::Resources, i as int);
                    }
                    return Some(d);
                },
                _ => {
                    assert(!is_kind(sv[i as int], SettingKind::Resources));
                },
            }
        }
        proof {
            lemma_last_kind_none(sv, SettingKind::Resources);
        }
        None
    }

    /// The effective data-local directory: the last `data-local=` of the chain.
    pub fn data_local(&self) -> (r: Option<&DirectorySetting>)
        ensures
            match spec_last_kind(self@.settings, SettingKind::DataLocal) {
                Some(i) => r is Some && r->Some_0@ == self@.settings[i]->DataLocal_0,
                None => r is None,
            },
    {
        let ghost sv = models(self.settings@);
        let n = self.settings.len();
        let mut i: usize = n;
        while i > 0
            invariant
                n == self.settings.len(),
                i <= n,
                sv == models(self.settings@),
                forall|j: int| i <= j < n ==> !is_kind(#[trigger] sv[j], SettingKind::DataLocal),
            decreases i,
        {
            i = i - 1;
            let item = &self.settings[i];
            assert(item@ == sv[i as int]);
            match item {
                SettingValue::DataLocal(d) => {
                    proof {
                        lemma_last_kind_some(sv, SettingKind::DataLocal, i as int);
                    }
                    return Some(d);
                },
                _ => {
                    assert(!is_kind(sv[i as int], SettingKind::DataLocal));
                },
            }
        }
        proof {
            lemma_last_kind_none(sv, SettingKind::DataLocal);
        }
        None
    }

    /// The effective encoding: the last `encoding=` of the chain.
    pub fn encoding(&self) -> (r: Option<&EncodingSetting>)
        ensures
            match spec_last_kind(self@.settings, SettingKind::Encoding) {
                Some(i) => r is Some && r->Some_0@ == self@.settings[i]->Encoding_0,
                None => r is None,
            },
    {
        let ghost sv = models(self.settings@);
        let n = self.settings.len();
        let mut i: usize = n;
        while i > 0
            invariant
                n == self.settings.len(),
                i <= n,
                sv == models(self.settings@),
                forall|j: int| i <= j < n ==> !is_kind(#[trigger] sv[j], SettingKind::Encoding),
            decreases i,
        {
            i = i - 1;
            let item = &self.settings[i];
            assert(item@ == sv[i as int]);
            match item {
                SettingValue::Encoding(e) => {
                    proof {
                        lemma_last_kind_some(sv, SettingKind::Encoding, i as int);
                    }
                    return Some(e);
                },
                _ => {
                    assert(!is_kind(sv[i as int], SettingKind::Encoding));
                },
            }
        }
        proof {
            lemma_last_kind_none(sv, SettingKind::Encoding);
        }
        None
    }

    /// Replaces the first entry of the category in place, appends when the
    /// category is absent, or removes the first entry when handed nothing.
    fn set_singleton(&mut self, k: SettingKind, new: Option<SettingValue>)
        requires
            match new {
                Some(v) => is_kind(v@, k),
                None => true,
            },
        ensures
            final(self)@.root == old(self)@.root,
            ({
                let s0 = old(self)@.settings;
                match (spec_first_kind(s0, k), new) {
                    (Some(i), Some(v)) => final(self)@.settings == s0.update(i, v@),
                    (None, Some(v)) => final(self)@.settings == s0.push(v@),
                    (Some(i), None) => final(self)@.settings == s0.remove(i),
                    (None, None) => final(self)@.settings == s0,
                }
            }),
    {
        let ghost s0 = models(self.settings@);
        let found = first_index_of_kind(&self.settings, k);
        match (found, new) {
            (Some(i), Some(v)) => {
                let ghost vm = v@;
                let ghost v1 = self.settings@;
                self.settings.remove(i);
                let ghost v2 = self.settings@;
                self.settings.insert(i, v);
                proof {
                    lemma_models_remove(v1, i as int);
                    lemma_models_insert(v2, i as int, self.settings@[i as int]);
                    assert(self.settings@[i as int]@ == vm);
                    vstd::seq_lib::lemma_update_is_remove_insert(s0, i as int, vm);
                    assert(models(self.settings@) =~= s0.update(i as int, vm));
                }
            },
            (None, Some(v)) => {
                let ghost vm = v@;
                let ghost v1 = self.settings@;
                self.settings.push(v);
                proof {
                    lemma_models_push(v1, self.settings@[v1.len() as int]);
                    assert(models(self.settings@) =~= s0.push(vm));
                }
            },
            (Some(i), None) => {
                let ghost v1 = self.settings@;
                self.settings.remove(i);
                proof {
                    lemma_models_remove(v1, i as int);
                    assert(models(self.settings@) =~= s0.remove(i as int));
                }
            },
            (None, None) => {},
        }
    }

    /// Sets or clears the effective `user-data=` entry in place.
    pub fn set_userdata(&mut self, new: Option<DirectorySetting>)
        ensures
            final(self)@.root == old(self)@.root,
            ({
                let s0 = old(self)@.settings;
                match (spec_first_kind(s0, SettingKind::UserData), new) {
                    (Some(i), Some(v)) => final(self)@.settings == s0.update(
                        i,
                        SettingModel::UserData(v@),
                    ),
                    (None, Some(v)) => final(self)@.settings == s0.push(SettingModel::UserData(v@)),
                    (Some(i), None) => final(self)@.settings == s0.remove(i),
                    (None, None) => final(self)@.settings == s0,
                }
            }),
    {
        match new {
            Some(v) => self.set_singleton(SettingKind::UserData, Some(SettingValue::UserData(v))),
            None => self.set_singleton(SettingKind::UserData, None),
        }
    }

    /// Sets or clears the effective `resources=` entry in place.
    pub fn set_resources(&mut self, new: Option<DirectorySetting>)
        ensures
            final(self)@.root == old(self)@.root,
            ({
                let s0 = old(self)@.settings;
                match (spec_first_kind(s0, SettingKind::Resources), new) {
                    (Some(i), Some(v)) => final(self)@.settings == s0.update(
                        i,
                        SettingModel::Resources(v@),
                    ),
                    (None, Some(v)) => final(self)@.settings == s0.push(
                        SettingModel::Resources(v@),
                    ),
                    (Some(i), None) => final(self)@.settings == s0.remove(i),
                    (None, None) => final(self)@.settings == s0,
                }
            }),
    {
        match new {
            Some(v) => self.set_singleton(SettingKind::Resources, Some(SettingValue::Resources(v))),
            None => self.set_singleton(SettingKind::Resources, None),
        }
    }

    /// Sets or clears the effective `data-local=` entry in place.
    pub fn set_data_local(&mut self, new: Option<DirectorySetting>)
        ensures
            final(self)@.root == old(self)@.root,
            ({
                let s0 = old(self)@.settings;
                match (spec_first_kind(s0, SettingKind::DataLocal), new) {
                    (Some(i), Some(v)) => final(self)@.settings == s0.update(
                        i,
                        SettingModel::DataLocal(v@),
                    ),
                    (None, Some(v)) => final(self)@.settings == s0.push(
                        SettingModel::DataLocal(v@),
                    ),
                    (Some(i), None) => final(self)@.settings == s0.remove(i),
                    (None, None) => final(self)@.settings == s0,
                }
            }),
    {
        match new {
            Some(v) => self.set_singleton(SettingKind::DataLocal, Some(SettingValue::DataLocal(v))),
            None => self.set_singleton(SettingKind::DataLocal, None),
        }
    }

    /// Sets or clears the effective `encoding=` entry in place.
    pub fn set_encoding(&mut self, new: Option<EncodingSetting>)
        ensures
            final(self)@.root == old(self)@.root,
            ({
                let s0 = old(self)@.settings;
                match (spec_first_kind(s0, SettingKind::Encoding), new) {
                    (Some(i), Some(v)) => final(self)@.settings == s0.update(
                        i,
                        SettingModel::Encoding(v@),
                    ),
                    (None, Some(v)) => final(self)@.settings == s0.push(SettingModel::Encoding(v@)),
                    (Some(i), None) => final(self)@.settings == s0.remove(i),
                    (None, None) => final(self)@.settings == s0,
                }
            }),
    {
        match new {
            Some(v) => self.set_singleton(SettingKind::Encoding, Some(SettingValue::Encoding(v))),
            None => self.set_singleton(SettingKind::Encoding, None),
        }
    }

    /// Retrieves the effective game setting of a key: the last `fallback=`
    /// entry whose key matches, whatever its value shape.  Case-sensitive.
    pub fn get_game_setting(&self, key: &str) -> (r: Option<&GameSettingType>)
        ensures
            match spec_last_game_key(self@.settings, key@) {
                Some(i) => r is Some && r->Some_0@ == self@.settings[i]->GameSetting_0,
                None => r is None,
            },
    {
        let ghost sv = models(self.settings@);
        let n = self.settings.len();
        let mut i: usize = n;
        while i > 0
            invariant
                n == self.settings.len(),
                i <= n,
                sv == models(self.settings@),
                forall|j: int| i <= j < n ==> !(#[trigger] sv[j] is GameSetting
                    && sv[j]->GameSetting_0.key == key@),
            decreases i,
        {
            i = i - 1;
            let item = &self.settings[i];
            assert(item@ == sv[i as int]);
            match item {
                SettingValue::GameSetting(g) => {
                    if g.key_eq(key) {
                        proof {
                            lemma_last_game_key_some(sv, key@, i as int);
                        }
                        return Some(g);
                    }
                },
                _ => {},
            }
            assert(!(sv[i as int] is GameSetting && sv[i as int]->GameSetting_0.key == key@));
        }
        proof {
            lemma_last_game_key_none(sv, key@);
        }
        None
    }
}


// ---------------------------------------------------------------------------
// Retaining and collecting by category
// ---------------------------------------------------------------------------

/// The sequence without the file-valued entries of category `k` named `v`.
pub open spec fn spec_remove_file_value(s: Seq<SettingModel>, k: SettingKind, v: Seq<char>) -> Seq<
    SettingModel,
>
    decreases s.len(),
{
    if s.len() == 0 {
        Seq::empty()
    } else if has_file_value(s.last(), k, v) {
        spec_remove_file_value(s.drop_last(), k, v)
    } else {
        spec_remove_file_value(s.drop_last(), k, v).push(s.last())
    }
}

/// Whether the entry is a data directory matching `d` by resolved or raw text.
pub open spec fn data_dir_matches(s: SettingModel, d: Seq<char>) -> bool {
    s is DataDirectory && (s->DataDirectory_0.parsed == d || s->DataDirectory_0.original == d)
}

/// The sequence without the data directories matching `d`.
pub open spec fn spec_remove_data_dir(s: Seq<SettingModel>, d: Seq<char>) -> Seq<SettingModel>
    decreases s.len(),
{
    if s.len() == 0 {
        Seq::empty()
    } else if data_dir_matches(s.last(), d) {
        spec_remove_data_dir(s.drop_last(), d)
    } else {
        spec_remove_data_dir(s.drop_last(), d).push(s.last())
    }
}

/// The keys already emitted, as a set.
pub open spec fn spec_seen_set(keys: Seq<String>) -> Set<Seq<char>> {
    Set::new(|k: Seq<char>| exists|j: int| 0 <= j < keys.len() && #[trigger] keys[j]@ == k)
}

/// The effective game settings: scanning from the most recent entry, the
/// first hit per key wins; the result is in reverse traversal order.
pub open spec fn spec_effective_game_settings(
    s: Seq<SettingModel>,
    seen: Set<Seq<char>>,
) -> Seq<crate::model::GameModel>
    decreases s.len(),
{
    if s.len() == 0 {
        Seq::empty()
    } else {
        match s.last() {
            SettingModel::GameSetting(g) => if seen.contains(g.key) {
                spec_effective_game_settings(s.drop_last(), seen)
            } else {
                seq![g] + spec_effective_game_settings(s.drop_last(), seen.insert(g.key))
            },
            _ => spec_effective_game_settings(s.drop_last(), seen),
        }
    }
}

fn contains_key(keys: &Vec<String>, k: &str) -> (r: bool)
    ensures
        r == (exists|j: int| 0 <= j < keys@.len() && #[trigger] keys@[j]@ == k@),
{
    let n = keys.len();
    let mut i: usize = 0;
    while i < n
        invariant
            n == keys.len(),
            i <= n,
            forall|j: int| 0 <= j < i ==> #[trigger] keys@[j]@ != k@,
        decreases n - i,
    {
        if str_eq(keys[i].as_str(), k) {
            assert(keys@[i as int]@ == k@);
            return true;
        }
        i += 1;
    }
    false
}

pub(crate) fn first_file_value_index(settings: &Vec<SettingValue>, k: SettingKind, v: &str) -> (r: Option<
    usize,
>)
    ensures
        match r {
            Some(i) => i < settings@.len() && spec_first_file_value(models(settings@), k, v@)
                == Some(i as int),
            None => spec_first_file_value(models(settings@), k, v@) is None,
        },
{
    let ghost sv = models(settings@);
    let n = settings.len();
    let mut i: usize = 0;
    while i < n
        invariant
            n == settings.len(),
            i <= n,
            sv == models(settings@),
            forall|j: int| 0 <= j < i ==> !has_file_value(#[trigger] sv[j], k, v@),
        decreases n - i,
    {
        let item = &settings[i];
        assert(item@ == sv[i as int]);
        if matches_file_value(item, k, v) {
            proof {
                lemma_first_file_value_some(sv, k, v@, i as int);
            }
            return Some(i);
        }
        i += 1;
    }
    proof {
        lemma_first_file_value_none(sv, k, v@);
    }
    None
}

/// Removes every entry of the category from a settings list, keeping
/// everything else in order.
pub(crate) fn retain_vec_not_kind(settings: &mut Vec<SettingValue>, k: SettingKind)
    ensures
        models(final(settings)@) == spec_remove_kind(models(old(settings)@), k),
{
    let ghost sv = models(settings@);
    let n = settings.len();
    let mut out: Vec<SettingValue> = Vec::new();
    let mut i: usize = 0;
    proof {
        assert(models(out@) =~= spec_remove_kind(sv.subrange(0, 0), k));
    }
    while i < n
        invariant
            n == settings.len(),
            i <= n,
            sv == models(settings@),
            models(out@) == spec_remove_kind(sv.subrange(0, i as int), k),
        decreases n - i,
    {
        let item = &settings[i];
        assert(item@ == sv[i as int]);
        let ghost o0 = out@;
        if kind_of(item) != k {
            let c = item.clone();
            out.push(c);
            proof {
                lemma_models_push(o0, out@[o0.len() as int]);
            }
        }
        proof {
            let pre1 = sv.subrange(0, i + 1);
            assert(pre1.drop_last() =~= sv.subrange(0, i as int));
            assert(pre1.last() == sv[i as int]);
            assert(models(out@) =~= spec_remove_kind(pre1, k));
        }
        i += 1;
    }
    proof {
        assert(sv.subrange(0, n as int) =~= sv);
    }
    *settings = out;
}

impl OpenMWConfiguration {
    /// Removes every entry of the category, keeping everything else in order.
    fn retain_not_kind(&mut self, k: SettingKind)
        ensures
            final(self)@.root == old(self)@.root,
            final(self)@.settings == spec_remove_kind(old(self)@.settings, k),
    {
        retain_vec_not_kind(&mut self.settings, k);
    }

    /// Removes every file-valued entry of category `k` named `v`.
    fn retain_not_file_value(&mut self, k: SettingKind, v: &str)
        ensures
            final(self)@.root == old(self)@.root,
            final(self)@.settings == spec_remove_file_value(old(self)@.settings, k, v@),
    {
        let ghost sv = models(self.settings@);
        let n = self.settings.len();
        let mut out: Vec<SettingValue> = Vec::new();
        let mut i: usize = 0;
        proof {
            assert(models(out@) =~= spec_remove_file_value(sv.subrange(0, 0), k, v@));
        }
        while i < n
            invariant
                n == self.settings.len(),
                i <= n,
                sv == models(self.settings@),
                models(out@) == spec_remove_file_value(sv.subrange(0, i as int), k, v@),
            decreases n - i,
        {
            let item = &self.settings[i];
            assert(item@ == sv[i as int]);
            let ghost o0 = out@;
            if !matches_file_value(item, k, v) {
                let c = item.clone();
                out.push(c);
                proof {
                    lemma_models_push(o0, out@[o0.len() as int]);
                }
            }
            proof {
                let pre1 = sv.subrange(0, i + 1);
                assert(pre1.drop_last() =~= sv.subrange(0, i as int));
                assert(pre1.last() == sv[i as int]);
                assert(models(out@) =~= spec_remove_file_value(pre1, k, v@));
            }
            i += 1;
        }
        proof {
            assert(sv.subrange(0, n as int) =~= sv);
        }
        self.settings = out;
    }

    /// Removes every content file of that name.
    pub fn remove_content_file(&mut self, file_name: &str)
        ensures
            final(self)@.root == old(self)@.root,
            final(self)@.settings == spec_remove_file_value(
                old(self)@.settings,
                SettingKind::ContentFile,
                file_name@,
            ),
    {
        self.retain_not_file_value(SettingKind::ContentFile, file_name);
    }

    /// Removes every groundcover entry of that name.
    pub fn remove_groundcover_file(&mut self, file_name: &str)
        ensures
            final(self)@.root == old(self)@.root,
            final(self)@.settings == spec_remove_file_value(
                old(self)@.settings,
                SettingKind::Groundcover,
                file_name@,
            ),
    {
        self.retain_not_file_value(SettingKind::Groundcover, file_name);
    }

    /// Removes every archive entry of that name.
    pub fn remove_archive_file(&mut self, file_name: &str)
        ensures
            final(self)@.root == old(self)@.root,
            final(self)@.settings == spec_remove_file_value(
                old(self)@.settings,
                SettingKind::BethArchive,
                file_name@,
            ),
    {
        self.retain_not_file_value(SettingKind::BethArchive, file_name);
    }

    /// Removes any data directory matching either the raw text as it stood
    /// in a file or the fully resolved absolute path.
    pub fn remove_data_directory(&mut self, data_dir: &str)
        ensures
            final(self)@.root == old(self)@.root,
            final(self)@.settings == spec_remove_data_dir(old(self)@.settings, data_dir@),
    {
        let ghost sv = models(self.settings@);
        let n = self.settings.len();
        let mut out: Vec<SettingValue> = Vec::new();
        let mut i: usize = 0;
        proof {
            assert(models(out@) =~= spec_remove_data_dir(sv.subrange(0, 0), data_dir@));
        }
        while i < n
            invariant
                n == self.settings.len(),
                i <= n,
                sv == models(self.settings@),
                models(out@) == spec_remove_data_dir(sv.subrange(0, i as int), data_dir@),
            decreases n - i,
        {
            let item = &self.settings[i];
            assert(item@ == sv[i as int]);
            let ghost o0 = out@;
            let matches: bool = match item {
                SettingValue::DataDirectory(d) => str_eq(d.parsed.as_str(), data_dir) || str_eq(
                    d.original.as_str(),
                    data_dir,
                ),
                _ => false,
            };
            assert(matches == data_dir_matches(sv[i as int], data_dir@));
            if !matches {
                let c = item.clone();
                out.push(c);
                proof {
                    lemma_models_push(o0, out@[o0.len() as int]);
                }
            }
            proof {
                let pre1 = sv.subrange(0, i + 1);
                assert(pre1.drop_last() =~= sv.subrange(0, i as int));
                assert(pre1.last() == sv[i as int]);
                assert(models(out@) =~= spec_remove_data_dir(pre1, data_dir@));
            }
            i += 1;
        }
        proof {
            assert(sv.subrange(0, n as int) =~= sv);
        }
        self.settings = out;
    }

    /// Whether a content file of that name is anywhere in the chain.
    pub fn has_content_file(&self, file_name: &str) -> (r: bool)
        ensures
            r == (spec_first_file_value(self@.settings, SettingKind::ContentFile, file_name@)
                is Some),
    {
        match first_file_value_index(&self.settings, SettingKind::ContentFile, file_name) {
            Some(_) => true,
            None => false,
        }
    }

    /// Whether a groundcover entry of that name is anywhere in the chain.
    pub fn has_groundcover_file(&self, file_name: &str) -> (r: bool)
        ensures
            r == (spec_first_file_value(self@.settings, SettingKind::Groundcover, file_name@)
                is Some),
    {
        match first_file_value_index(&self.settings, SettingKind::Groundcover, file_name) {
            Some(_) => true,
            None => false,
        }
    }

    /// Whether an archive entry of that name is anywhere in the chain.
    pub fn has_archive_file(&self, file_name: &str) -> (r: bool)
        ensures
            r == (spec_first_file_value(self@.settings, SettingKind::BethArchive, file_name@)
                is Some),
    {
        match first_file_value_index(&self.settings, SettingKind::BethArchive, file_name) {
            Some(_) => true,
            None => false,
        }
    }

    /// Whether some data directory resolves to exactly that path.
    pub fn has_data_dir(&self, file_name: &str) -> (r: bool)
        ensures
            r == (exists|i: int| 0 <= i < self@.settings.len() && (#[trigger] self@.settings[i])
                is DataDirectory && self@.settings[i]->DataDirectory_0.parsed == file_name@),
    {
        let ghost sv = models(self.settings@);
        let n = self.settings.len();
        let mut i: usize = 0;
        while i < n
            invariant
                n == self.settings.len(),
                i <= n,
                sv == models(self.settings@),
                forall|j: int| 0 <= j < i ==> !((#[trigger] sv[j]) is DataDirectory
                    && sv[j]->DataDirectory_0.parsed == file_name@),
            decreases n - i,
        {
            let item = &self.settings[i];
            assert(item@ == sv[i as int]);
            match item {
                SettingValue::DataDirectory(d) => {
                    if str_eq(d.parsed.as_str(), file_name) {
                        assert(sv[i as int] is DataDirectory && sv[i as int]->DataDirectory_0.parsed
                            == file_name@);
                        return true;
                    }
                },
                _ => {},
            }
            assert(!(sv[i as int] is DataDirectory && sv[i as int]->DataDirectory_0.parsed
                == file_name@));
            i += 1;
        }
        false
    }
}


// ---------------------------------------------------------------------------
// Collecting category values
// ---------------------------------------------------------------------------

/// The file-valued entry of category `k` around `f` (a content file, an
/// archive, or a groundcover entry).
pub open spec fn file_kind_model(k: SettingKind, f: FileModel) -> SettingModel {
    if k == SettingKind::ContentFile {
        SettingModel::ContentFile(f)
    } else if k == SettingKind::BethArchive {
        SettingModel::BethArchive(f)
    } else {
        SettingModel::Groundcover(f)
    }
}

/// The file-valued entries a wholesale replacement appends: one per name,
/// all owned by `src`, with no comment blocks.
pub open spec fn spec_file_entries(k: SettingKind, vals: Seq<Seq<char>>, src: Seq<char>) -> Seq<
    SettingModel,
> {
    Seq::new(
        vals.len(),
        |i: int| file_kind_model(
            k,
            FileModel { value: vals[i], meta: MetaModel { source: src, comment: Seq::empty() } },
        ),
    )
}

/// The game-setting entries a wholesale replacement appends, each parsed as
/// on loading, all owned by `src`, with no comment blocks.
pub open spec fn spec_game_entries(vals: Seq<Seq<char>>, src: Seq<char>) -> Seq<SettingModel> {
    Seq::new(
        vals.len(),
        |i: int| SettingModel::GameSetting(
            crate::gamesetting::spec_game_setting(vals[i], src, Seq::empty()),
        ),
    )
}

/// The error an `add` call reports when the name is already taken.
pub open spec fn cannot_add_err(k: SettingKind, file: Seq<char>, path: Seq<char>) -> ErrModel {
    if k == SettingKind::ContentFile {
        ErrModel::CannotAddContentFile { file, config_path: path }
    } else if k == SettingKind::BethArchive {
        ErrModel::CannotAddArchiveFile { file, config_path: path }
    } else {
        ErrModel::CannotAddGroundcoverFile { file, config_path: path }
    }
}

impl OpenMWConfiguration {
    /// The content-file names of the chain, in load order.
    pub fn content_files(&self) -> (r: Vec<String>)
        ensures
            r.deep_view() == spec_content_values(self@.settings),
    {
        let ghost sv = models(self.settings@);
        let n = self.settings.len();
        let mut out: Vec<String> = Vec::new();
        let mut i: usize = 0;
        proof {
            assert(out.deep_view() =~~= spec_content_values(sv.subrange(0, 0)));
        }
        while i < n
            invariant
                n == self.settings.len(),
                i <= n,
                sv == models(self.settings@),
                out.deep_view() == spec_content_values(sv.subrange(0, i as int)),
            decreases n - i,
        {
            let item = &self.settings[i];
            assert(item@ == sv[i as int]);
            let ghost o0 = out@;
            let ghost odv = out.deep_view();
            match item {
                SettingValue::ContentFile(f) => {
                    out.push(f.value.clone());
                    proof {
                        let lhs = out.deep_view();
                        let rhs = odv.push(f.value@);
                        assert forall|j: int| 0 <= j < lhs.len() implies lhs[j] == rhs[j] by {
                            if j < o0.len() {
                                assert(out@[j] == o0[j]);
                            }
                        }
                        assert(lhs =~~= rhs);
                    }
                },
                _ => {},
            }
            proof {
                let pre1 = sv.subrange(0, i + 1);
                assert(pre1.drop_last() =~= sv.subrange(0, i as int));
                assert(pre1.last() == sv[i as int]);
                assert(out.deep_view() =~~= spec_content_values(pre1));
            }
            i += 1;
        }
        proof {
            assert(sv.subrange(0, n as int) =~= sv);
        }
        out
    }

    /// The groundcover names of the chain, in load order.
    pub fn groundcover(&self) -> (r: Vec<String>)
        ensures
            r.deep_view() == spec_groundcover_values(self@.settings),
    {
        let ghost sv = models(self.settings@);
        let n = self.settings.len();
        let mut out: Vec<String> = Vec::new();
        let mut i: usize = 0;
        proof {
            assert(out.deep_view() =~~= spec_groundcover_values(sv.subrange(0, 0)));
        }
        while i < n
            invariant
                n == self.settings.len(),
                i <= n,
                sv == models(self.settings@),
                out.deep_view() == spec_groundcover_values(sv.subrange(0, i as int)),
            decreases n - i,
        {
            let item = &self.settings[i];
            assert(item@ == sv[i as int]);
            let ghost o0 = out@;
            let ghost odv = out.deep_view();
            match item {
                SettingValue::Groundcover(f) => {
                    out.push(f.value.clone());
                    proof {
                        let lhs = out.deep_view();
                        let rhs = odv.push(f.value@);
                        assert forall|j: int| 0 <= j < lhs.len() implies lhs[j] == rhs[j] by {
                            if j < o0.len() {
                                assert(out@[j] == o0[j]);
                            }
                        }
                        assert(lhs =~~= rhs);
                    }
                },
                _ => {},
            }
            proof {
                let pre1 = sv.subrange(0, i + 1);
                assert(pre1.drop_last() =~= sv.subrange(0, i as int));
                assert(pre1.last() == sv[i as int]);
                assert(out.deep_view() =~~= spec_groundcover_values(pre1));
            }
            i += 1;
        }
        proof {
            assert(sv.subrange(0, n as int) =~= sv);
        }
        out
    }

    /// The archive names of the chain, in load order.
    pub fn fallback_archives(&self) -> (r: Vec<String>)
        ensures
            r.deep_view() == spec_archive_values(self@.settings),
    {
        let ghost sv = models(self.settings@);
        let n = self.settings.len();
        let mut out: Vec<String> = Vec::new();
        let mut i: usize = 0;
        proof {
            assert(out.deep_view() =~~= spec_archive_values(sv.subrange(0, 0)));
        }
        while i < n
            invariant
                n == self.settings.len(),
                i <= n,
                sv == models(self.settings@),
                out.deep_view() == spec_archive_values(sv.subrange(0, i as int)),
            decreases n - i,
        {
            let item = &self.settings[i];
            assert(item@ == sv[i as int]);
            let ghost o0 = out@;
            let ghost odv = out.deep_view();
            match item {
                SettingValue::BethArchive(f) => {
                    out.push(f.value.clone());
                    proof {
                        let lhs = out.deep_view();
                        let rhs = odv.push(f.value@);
                        assert forall|j: int| 0 <= j < lhs.len() implies lhs[j] == rhs[j] by {
                            if j < o0.len() {
                                assert(out@[j] == o0[j]);
                            }
                        }
                        assert(lhs =~~= rhs);
                    }
                },
                _ => {},
            }
            proof {
                let pre1 = sv.subrange(0, i + 1);
                assert(pre1.drop_last() =~= sv.subrange(0, i as int));
                assert(pre1.last() == sv[i as int]);
                assert(out.deep_view() =~~= spec_archive_values(pre1));
            }
            i += 1;
        }
        proof {
            assert(sv.subrange(0, n as int) =~= sv);
        }
        out
    }

    /// The resolved data directories of the chain, in load order.
    pub fn data_directories(&self) -> (r: Vec<String>)
        ensures
            r.deep_view() == spec_data_dir_paths(self@.settings),
    {
        let ghost sv = models(self.settings@);
        let n = self.settings.len();
        let mut out: Vec<String> = Vec::new();
        let mut i: usize = 0;
        proof {
            assert(out.deep_view() =~~= spec_data_dir_paths(sv.subrange(0, 0)));
        }
        while i < n
            invariant
                n == self.settings.len(),
                i <= n,
                sv == models(self.settings@),
                out.deep_view() == spec_data_dir_paths(sv.subrange(0, i as int)),
            decreases n - i,
        {
            let item = &self.settings[i];
            assert(item@ == sv[i as int]);
            let ghost o0 = out@;
            let ghost odv = out.deep_view();
            match item {
                SettingValue::DataDirectory(d) => {
                    out.push(d.parsed.clone());
                    proof {
                        let lhs = out.deep_view();
                        let rhs = odv.push(d.parsed@);
                        assert forall|j: int| 0 <= j < lhs.len() implies lhs[j] == rhs[j] by {
                            if j < o0.len() {
                                assert(out@[j] == o0[j]);
                            }
                        }
                        assert(lhs =~~= rhs);
                    }
                },
                _ => {},
            }
            proof {
                let pre1 = sv.subrange(0, i + 1);
                assert(pre1.drop_last() =~= sv.subrange(0, i as int));
                assert(pre1.last() == sv[i as int]);
                assert(out.deep_view() =~~= spec_data_dir_paths(pre1));
            }
            i += 1;
        }
        proof {
            assert(sv.subrange(0, n as int) =~= sv);
        }
        out
    }

    /// The sub-configuration entries of the chain, in traversal order.
    pub fn sub_configs(&self) -> (r: Vec<DirectorySetting>)
        ensures
            r.deep_view() == spec_sub_configs(self@.settings),
    {
        let ghost sv = models(self.settings@);
        let n = self.settings.len();
        let mut out: Vec<DirectorySetting> = Vec::new();
        let mut i: usize = 0;
        proof {
            assert(out.deep_view() =~~= spec_sub_configs(sv.subrange(0, 0)));
        }
        while i < n
            invariant
                n == self.settings.len(),
                i <= n,
                sv == models(self.settings@),
                out.deep_view() == spec_sub_configs(sv.subrange(0, i as int)),
            decreases n - i,
        {
            let item = &self.settings[i];
            assert(item@ == sv[i as int]);
            let ghost o0 = out@;
            let ghost odv = out.deep_view();
            match item {
                SettingValue::SubConfiguration(d) => {
                    out.push(d.clone());
                    proof {
                        let lhs = out.deep_view();
                        let rhs = odv.push(sv[i as int]->SubConfiguration_0);
                        assert forall|j: int| 0 <= j < lhs.len() implies lhs[j] == rhs[j] by {
                            if j < o0.len() {
                                assert(out@[j] == o0[j]);
                            }
                        }
                        assert(lhs =~~= rhs);
                    }
                },
                _ => {},
            }
            proof {
                let pre1 = sv.subrange(0, i + 1);
                assert(pre1.drop_last() =~= sv.subrange(0, i as int));
                assert(pre1.last() == sv[i as int]);
                assert(out.deep_view() =~~= spec_sub_configs(pre1));
            }
            i += 1;
        }
        proof {
            assert(sv.subrange(0, n as int) =~= sv);
        }
        out
    }

    /// The effective game settings, most recently loaded first, one entry
    /// per key: the last-loaded entry of each key wins.
    pub fn game_settings(&self) -> (r: Vec<GameSettingType>)
        ensures
            r.deep_view() == spec_effective_game_settings(
                self@.settings,
                Set::<Seq<char>>::empty(),
            ),
    {
        let ghost sv = models(self.settings@);
        let n = self.settings.len();
        let mut out: Vec<GameSettingType> = Vec::new();
        let mut keys: Vec<String> = Vec::new();
        let ghost seen0: Set<Seq<char>> = Set::empty();
        let mut i: usize = n;
        proof {
            assert(sv.subrange(0, n as int) =~= sv);
            assert(spec_seen_set(keys@) =~= Set::<Seq<char>>::empty());
            assert(out.deep_view() + spec_effective_game_settings(sv, spec_seen_set(keys@))
                =~~= spec_effective_game_settings(sv, Set::<Seq<char>>::empty()));
        }
        while i > 0
            invariant
                n == self.settings.len(),
                i <= n,
                sv == models(self.settings@),
                out.deep_view() + spec_effective_game_settings(
                    sv.subrange(0, i as int),
                    spec_seen_set(keys@),
                ) =~~= spec_effective_game_settings(sv, Set::<Seq<char>>::empty()),
            decreases i,
        {
            i = i - 1;
            let item = &self.settings[i];
            assert(item@ == sv[i as int]);
            let ghost pre1 = sv.subrange(0, i + 1);
            proof {
                assert(pre1.drop_last() =~= sv.subrange(0, i as int));
                assert(pre1.last() == sv[i as int]);
            }
            match item {
                SettingValue::GameSetting(g) => {
                    let ghost o0 = out@;
                    let ghost odv = out.deep_view();
                    let ghost seen = spec_seen_set(keys@);
                    let ghost k0 = keys@;
                    if !contains_key(&keys, g.key().as_str()) {
                        assert(!seen.contains(g@.key));
                        let c = g.clone();
                        out.push(c);
                        keys.push(g.key().clone());
                        proof {
                            let lhs = out.deep_view();
                            let rhs = odv.push(sv[i as int]->GameSetting_0);
                            assert forall|j: int| 0 <= j < lhs.len() implies lhs[j] == rhs[j] by {
                                if j < o0.len() {
                                    assert(out@[j] == o0[j]);
                                }
                            }
                            assert(lhs =~~= rhs);
                            assert forall|k: Seq<char>| spec_seen_set(keys@).contains(k)
                                == seen.insert(g@.key).contains(k) by {
                                if spec_seen_set(keys@).contains(k) {
                                    let j = choose|j: int| 0 <= j < keys@.len()
                                        && #[trigger] keys@[j]@ == k;
                                    if j < k0.len() {
                                        assert(k0[j] == keys@[j]);
                                        assert(spec_seen_set(k0).contains(k));
                                    } else {
                                        assert(keys@[k0.len() as int]@ == g@.key);
                                    }
                                }
                                if seen.insert(g@.key).contains(k) {
                                    if k == g@.key {
                                        assert(keys@[k0.len() as int]@ == k);
                                    } else {
                                        assert(seen.contains(k));
                                        let j = choose|j: int| 0 <= j < k0.len()
                                            && #[trigger] k0[j]@ == k;
                                        assert(keys@[j]@ == k);
                                    }
                                }
                            }
                            assert(spec_seen_set(keys@) =~= seen.insert(g@.key));
                            assert(sv[i as int]->GameSetting_0.key == g@.key);
                            assert(out.deep_view() + spec_effective_game_settings(
                                sv.subrange(0, i as int),
                                spec_seen_set(keys@),
                            ) =~~= spec_effective_game_settings(sv, Set::<Seq<char>>::empty()));
                        }
                    } else {
                        assert(seen.contains(g@.key));
                    }
                },
                _ => {},
            }
        }
        proof {
            assert(sv.subrange(0, 0) =~= Seq::<SettingModel>::empty());
            assert(out.deep_view() + Seq::<crate::model::GameModel>::empty() =~~= out.deep_view());
        }
        out
    }

    /// Appends a content file at user-configuration level; a name already
    /// present anywhere in the chain is refused, with the file that first
    /// defined it named in the error.
    pub fn add_content_file(&mut self, content_file: &str) -> (r: Result<(), ConfigError>)
        requires
            spec_parent(old(self)@.root) is Some,
        ensures
            ({
                let s0 = old(self)@.settings;
                match spec_first_file_value(s0, SettingKind::ContentFile, content_file@) {
                    Some(i) => r is Err && r->Err_0@ == cannot_add_err(
                        SettingKind::ContentFile,
                        content_file@,
                        s0[i].meta().source,
                    ) && final(self)@ == old(self)@,
                    None => r is Ok && final(self)@.root == old(self)@.root && final(self)@.settings
                        == s0.push(
                        file_kind_model(
                            SettingKind::ContentFile,
                            FileModel {
                                value: content_file@,
                                meta: MetaModel {
                                    source: spec_join(
                                        spec_user_config_dir(old(self)@),
                                        "openmw.cfg"@,
                                    ),
                                    comment: Seq::<char>::empty(),
                                },
                            },
                        ),
                    ),
                }
            }),
    {
        self.add_file_entry(SettingKind::ContentFile, content_file)
    }

    /// Appends a groundcover entry at user-configuration level; a name
    /// already present anywhere in the chain is refused.
    pub fn add_groundcover_file(&mut self, content_file: &str) -> (r: Result<(), ConfigError>)
        requires
            spec_parent(old(self)@.root) is Some,
        ensures
            ({
                let s0 = old(self)@.settings;
                match spec_first_file_value(s0, SettingKind::Groundcover, content_file@) {
                    Some(i) => r is Err && r->Err_0@ == cannot_add_err(
                        SettingKind::Groundcover,
                        content_file@,
                        s0[i].meta().source,
                    ) && final(self)@ == old(self)@,
                    None => r is Ok && final(self)@.root == old(self)@.root && final(self)@.settings
                        == s0.push(
                        file_kind_model(
                            SettingKind::Groundcover,
                            FileModel {
                                value: content_file@,
                                meta: MetaModel {
                                    source: spec_join(
                                        spec_user_config_dir(old(self)@),
                                        "openmw.cfg"@,
                                    ),
                                    comment: Seq::<char>::empty(),
                                },
                            },
                        ),
                    ),
                }
            }),
    {
        self.add_file_entry(SettingKind::Groundcover, content_file)
    }

    /// Appends an archive entry at user-configuration level; a name already
    /// present anywhere in the chain is refused.
    pub fn add_archive_file(&mut self, archive_file: &str) -> (r: Result<(), ConfigError>)
        requires
            spec_parent(old(self)@.root) is Some,
        ensures
            ({
                let s0 = old(self)@.settings;
                match spec_first_file_value(s0, SettingKind::BethArchive, archive_file@) {
                    Some(i) => r is Err && r->Err_0@ == cannot_add_err(
                        SettingKind::BethArchive,
                        archive_file@,
                        s0[i].meta().source,
                    ) && final(self)@ == old(self)@,
                    None => r is Ok && final(self)@.root == old(self)@.root && final(self)@.settings
                        == s0.push(
                        file_kind_model(
                            SettingKind::BethArchive,
                            FileModel {
                                value: archive_file@,
                                meta: MetaModel {
                                    source: spec_join(
                                        spec_user_config_dir(old(self)@),
                                        "openmw.cfg"@,
                                    ),
                                    comment: Seq::<char>::empty(),
                                },
                            },
                        ),
                    ),
                }
            }),
    {
        self.add_file_entry(SettingKind::BethArchive, archive_file)
    }

    fn add_file_entry(&mut self, k: SettingKind, value: &str) -> (r: Result<(), ConfigError>)
        requires
            k == SettingKind::ContentFile || k == SettingKind::BethArchive || k
                == SettingKind::Groundcover,
            spec_parent(old(self)@.root) is Some,
        ensures
            ({
                let s0 = old(self)@.settings;
                match spec_first_file_value(s0, k, value@) {
                    Some(i) => r is Err && r->Err_0@ == cannot_add_err(
                        k,
                        value@,
                        s0[i].meta().source,
                    ) && final(self)@ == old(self)@,
                    None => r is Ok && final(self)@.root == old(self)@.root && final(self)@.settings
                        == s0.push(
                        file_kind_model(
                            k,
                            FileModel {
                                value: value@,
                                meta: MetaModel {
                                    source: spec_join(
                                        spec_user_config_dir(old(self)@),
                                        "openmw.cfg"@,
                                    ),
                                    comment: Seq::<char>::empty(),
                                },
                            },
                        ),
                    ),
                }
            }),
    {
        match first_file_value_index(&self.settings, k, value) {
            Some(i) => {
                let dup = &self.settings[i];
                assert(dup@ == models(self.settings@)[i as int]);
                let path = dup.meta().source_config.clone();
                let e = if k == SettingKind::ContentFile {
                    ConfigError::CannotAddContentFile { file: value.to_owned(), config_path: path }
                } else if k == SettingKind::BethArchive {
                    ConfigError::CannotAddArchiveFile { file: value.to_owned(), config_path: path }
                } else {
                    ConfigError::CannotAddGroundcoverFile {
                        file: value.to_owned(),
                        config_path: path,
                    }
                };
                Err(e)
            },
            None => {
                let ucp = self.user_config_path();
                let src = join_path(ucp.as_str(), "openmw.cfg");
                let mut no_comment = String::new();
                let fs = FileSetting::new(value, src.as_str(), &mut no_comment);
                let item = if k == SettingKind::ContentFile {
                    SettingValue::ContentFile(fs)
                } else if k == SettingKind::BethArchive {
                    SettingValue::BethArchive(fs)
                } else {
                    SettingValue::Groundcover(fs)
                };
                let ghost v1 = self.settings@;
                self.settings.push(item);
                proof {
                    lemma_models_push(v1, self.settings@[v1.len() as int]);
                    assert(models(self.settings@) =~= models(v1).push(
                        self.settings@[v1.len() as int]@,
                    ));
                }
                Ok(())
            },
        }
    }
}


// ---------------------------------------------------------------------------
// Wholesale category replacement
// ---------------------------------------------------------------------------

impl OpenMWConfiguration {
    /// Replaces the whole content-file list: every existing entry goes, and
    /// the given names (if any) are appended at user-configuration level.
    pub fn set_content_files(&mut self, plugins: Option<Vec<String>>)
        requires
            spec_parent(old(self)@.root) is Some,
        ensures
            final(self)@.root == old(self)@.root,
            ({
                let cleared = spec_remove_kind(old(self)@.settings, SettingKind::ContentFile);
                let ucd = spec_user_config_dir(old(self)@);
                match plugins {
                    Some(vals) => final(self)@.settings == cleared + spec_file_entries(
                        SettingKind::ContentFile,
                        vals.deep_view(),
                        ucd,
                    ),
                    None => final(self)@.settings == cleared,
                }
            }),
    {
        self.set_file_entries(SettingKind::ContentFile, plugins);
    }

    /// Replaces the whole archive list in the same way.
    pub fn set_fallback_archives(&mut self, archives: Option<Vec<String>>)
        requires
            spec_parent(old(self)@.root) is Some,
        ensures
            final(self)@.root == old(self)@.root,
            ({
                let cleared = spec_remove_kind(old(self)@.settings, SettingKind::BethArchive);
                let ucd = spec_user_config_dir(old(self)@);
                match archives {
                    Some(vals) => final(self)@.settings == cleared + spec_file_entries(
                        SettingKind::BethArchive,
                        vals.deep_view(),
                        ucd,
                    ),
                    None => final(self)@.settings == cleared,
                }
            }),
    {
        self.set_file_entries(SettingKind::BethArchive, archives);
    }

    fn set_file_entries(&mut self, k: SettingKind, values: Option<Vec<String>>)
        requires
            k == SettingKind::ContentFile || k == SettingKind::BethArchive,
            spec_parent(old(self)@.root) is Some,
        ensures
            final(self)@.root == old(self)@.root,
            ({
                let cleared = spec_remove_kind(old(self)@.settings, k);
                let ucd = spec_user_config_dir(old(self)@);
                match values {
                    Some(vals) => final(self)@.settings == cleared + spec_file_entries(
                        k,
                        vals.deep_view(),
                        ucd,
                    ),
                    None => final(self)@.settings == cleared,
                }
            }),
    {
        let ucp = self.user_config_path();
        let ghost ucd = spec_user_config_dir(self@);
        self.retain_not_kind(k);
        let ghost cleared = models(self.settings@);
        match values {
            None => {},
            Some(vals) => {
                let ghost vdv = vals.deep_view();
                let ghost entries = spec_file_entries(k, vdv, ucd);
                let ghost root0 = self.root_config@;
                let vn = vals.len();
                let mut i: usize = 0;
                proof {
                    assert(models(self.settings@) =~= cleared + entries.subrange(0, 0));
                }
                while i < vn
                    invariant
                        self.root_config@ == root0,
                        vn == vals.len(),
                        i <= vn,
                        vdv == vals.deep_view(),
                        entries == spec_file_entries(k, vdv, ucd),
                        ucd == ucp@,
                        k == SettingKind::ContentFile || k == SettingKind::BethArchive,
                        models(self.settings@) == cleared + entries.subrange(0, i as int),
                    decreases vn - i,
                {
                    let mut no_comment = String::new();
                    let fs = FileSetting::new(vals[i].as_str(), ucp.as_str(), &mut no_comment);
                    assert(vals@[i as int]@ == vdv[i as int]);
                    let item = if k == SettingKind::ContentFile {
                        SettingValue::ContentFile(fs)
                    } else {
                        SettingValue::BethArchive(fs)
                    };
                    let ghost v1 = self.settings@;
                    self.settings.push(item);
                    proof {
                        lemma_models_push(v1, self.settings@[v1.len() as int]);
                        assert(entries.subrange(0, i + 1).drop_last() =~= entries.subrange(
                            0,
                            i as int,
                        ));
                        assert(entries[i as int] == self.settings@[v1.len() as int]@);
                        assert(models(self.settings@) =~= cleared + entries.subrange(0, i + 1));
                    }
                    i += 1;
                }
                proof {
                    assert(entries.subrange(0, vn as int) =~= entries);
                }
            },
        }
    }

    /// Replaces the whole data-directory list: every existing entry goes,
    /// and each given path is resolved and appended at user-configuration
    /// level.  Token substitution uses the platform default directories.
    pub fn set_data_directories(&mut self, dirs: Option<Vec<String>>)
        requires
            spec_parent(old(self)@.root) is Some,
        ensures
            final(self)@.root == old(self)@.root,
            ({
                let cleared = spec_remove_kind(old(self)@.settings, SettingKind::DataDirectory);
                let ucd = spec_user_config_dir(old(self)@);
                match dirs {
                    Some(vals) => {
                        &&& final(self)@.settings.len() == cleared.len() + vals.deep_view().len()
                        &&& final(self)@.settings.subrange(0, cleared.len() as int) == cleared
                        &&& forall|i: int| 0 <= i < vals.deep_view().len() ==> {
                            let e = #[trigger] final(self)@.settings[cleared.len() + i];
                            &&& e is DataDirectory
                            &&& e->DataDirectory_0.original == vals.deep_view()[i]
                            &&& e->DataDirectory_0.meta == (MetaModel {
                                source: ucd,
                                comment: Seq::<char>::empty(),
                            })
                            &&& exists|ud: Seq<char>, uc: Seq<char>| e->DataDirectory_0.parsed
                                == spec_resolve(ucd, vals.deep_view()[i], ud, uc)
                        }
                    },
                    None => final(self)@.settings == cleared,
                }
            }),
    {
        let ucp = self.user_config_path();
        let ghost ucd = spec_user_config_dir(self@);
        self.retain_not_kind(SettingKind::DataDirectory);
        let ghost cleared = models(self.settings@);
        match dirs {
            None => {},
            Some(vals) => {
                let user_data = match crate::defaults::default_userdata_path() {
                    Some(d) => d,
                    None => String::new(),
                };
                let user_config = match crate::defaults::default_config_path() {
                    Some(d) => d,
                    None => String::new(),
                };
                let ghost vdv = vals.deep_view();
                let ghost root0 = self.root_config@;
                let vn = vals.len();
                let mut i: usize = 0;
                while i < vn
                    invariant
                        self.root_config@ == root0,
                        vn == vals.len(),
                        i <= vn,
                        vdv == vals.deep_view(),
                        ucd == ucp@,
                        models(self.settings@).len() == cleared.len() + i,
                        models(self.settings@).subrange(0, cleared.len() as int) == cleared,
                        forall|j: int| 0 <= j < i ==> {
                            let e = #[trigger] models(self.settings@)[cleared.len() + j];
                            &&& e is DataDirectory
                            &&& e->DataDirectory_0.original == vdv[j]
                            &&& e->DataDirectory_0.meta == (MetaModel {
                                source: ucd,
                                comment: Seq::<char>::empty(),
                            })
                            &&& e->DataDirectory_0.parsed == spec_resolve(
                                ucd,
                                vdv[j],
                                user_data@,
                                user_config@,
                            )
                        },
                    decreases vn - i,
                {
                    let mut no_comment = String::new();
                    assert(vals@[i as int]@ == vdv[i as int]);
                    let ds = DirectorySetting::new_resolved(
                        vals[i].as_str(),
                        ucp.as_str(),
                        ucp.as_str(),
                        &mut no_comment,
                        user_data.as_str(),
                        user_config.as_str(),
                    );
                    let ghost v1 = self.settings@;
                    self.settings.push(SettingValue::DataDirectory(ds));
                    proof {
                        lemma_models_push(v1, self.settings@[v1.len() as int]);
                        assert(models(self.settings@) =~= models(v1).push(
                            self.settings@[v1.len() as int]@,
                        ));
                        assert(models(self.settings@).subrange(0, cleared.len() as int)
                            =~= cleared);
                    }
                    i += 1;
                }
                proof {
                    assert forall|j: int| 0 <= j < vdv.len() implies {
                        let e = #[trigger] models(self.settings@)[cleared.len() + j];
                        exists|ud: Seq<char>, uc: Seq<char>| e->DataDirectory_0.parsed
                            == spec_resolve(ucd, vdv[j], ud, uc)
                    } by {
                        let e = models(self.settings@)[cleared.len() + j];
                        assert(e->DataDirectory_0.parsed == spec_resolve(
                            ucd,
                            vdv[j],
                            user_data@,
                            user_config@,
                        ));
                    }
                }
            },
        }
    }

    /// Appends one `fallback=` entry, parsed from the raw value text; the
    /// given file (or the user configuration) is recorded as its source.
    pub fn set_game_setting(
        &mut self,
        base_value: &str,
        config_path: Option<String>,
        comment: &mut String,
    ) -> (r: Result<(), ConfigError>)
        requires
            config_path is None ==> spec_parent(old(self)@.root) is Some,
        ensures
            final(self)@.root == old(self)@.root,
            ({
                let src = match config_path {
                    Some(p) => p@,
                    None => spec_user_config_dir(old(self)@),
                };
                match r {
                    Ok(_) => {
                        &&& crate::strutil::spec_find(base_value@, ',') is Some
                        &&& final(self)@.settings == old(self)@.settings.push(
                            SettingModel::GameSetting(
                                crate::gamesetting::spec_game_setting(
                                    base_value@,
                                    src,
                                    old(comment)@,
                                ),
                            ),
                        )
                        &&& final(comment)@ == Seq::<char>::empty()
                    },
                    Err(e) => {
                        &&& crate::strutil::spec_find(base_value@, ',') is None
                        &&& e@ == (ErrModel::InvalidGameSetting {
                            value: base_value@,
                            config_path: src,
                        })
                        &&& final(self)@.settings == old(self)@.settings
                        &&& final(comment)@ == old(comment)@
                    },
                }
            }),
    {
        let src: String = match config_path {
            Some(p) => p,
            None => self.user_config_path(),
        };
        match GameSettingType::try_from(base_value, src.as_str(), comment) {
            Ok(g) => {
                let ghost v1 = self.settings@;
                self.settings.push(SettingValue::GameSetting(g));
                proof {
                    lemma_models_push(v1, self.settings@[v1.len() as int]);
                    assert(models(self.settings@) =~= models(v1).push(
                        self.settings@[v1.len() as int]@,
                    ));
                }
                Ok(())
            },
            Err(e) => Err(e),
        }
    }

    /// Replaces every `fallback=` entry with the given raw values, each
    /// parsed as on loading; the first malformed value aborts, leaving the
    /// entries before it in place.
    pub fn set_game_settings(&mut self, settings: Option<Vec<String>>) -> (r: Result<
        (),
        ConfigError,
    >)
        requires
            spec_parent(old(self)@.root) is Some,
        ensures
            final(self)@.root == old(self)@.root,
            ({
                let cleared = spec_remove_kind(old(self)@.settings, SettingKind::GameSetting);
                let ucd = spec_user_config_dir(old(self)@);
                match settings {
                    Some(vals) => {
                        let vdv = vals.deep_view();
                        match r {
                            Ok(_) => {
                                &&& forall|i: int| 0 <= i < vdv.len()
                                    ==> crate::strutil::spec_find(#[trigger] vdv[i], ',') is Some
                                &&& final(self)@.settings == cleared + spec_game_entries(vdv, ucd)
                            },
                            Err(e) => exists|bad: int| {
                                &&& 0 <= bad < vdv.len()
                                &&& crate::strutil::spec_find(#[trigger] vdv[bad], ',') is None
                                &&& forall|i: int| 0 <= i < bad ==> crate::strutil::spec_find(
                                    #[trigger] vdv[i],
                                    ',',
                                ) is Some
                                &&& e@ == (ErrModel::InvalidGameSetting {
                                    value: vdv[bad],
                                    config_path: ucd,
                                })
                                &&& final(self)@.settings == cleared + spec_game_entries(
                                    vdv.subrange(0, bad),
                                    ucd,
                                )
                            },
                        }
                    },
                    None => r is Ok && final(self)@.settings == cleared,
                }
            }),
    {
        let ucp = self.user_config_path();
        let ghost ucd = spec_user_config_dir(self@);
        self.retain_not_kind(SettingKind::GameSetting);
        let ghost cleared = models(self.settings@);
        match settings {
            None => Ok(()),
            Some(vals) => {
                let ghost vdv = vals.deep_view();
                let ghost root0 = self.root_config@;
                let vn = vals.len();
                let mut i: usize = 0;
                proof {
                    assert(models(self.settings@) =~= cleared + spec_game_entries(
                        vdv.subrange(0, 0),
                        ucd,
                    ));
                }
                while i < vn
                    invariant
                        self.root_config@ == old(self).root_config@,
                        cleared == spec_remove_kind(
                            models(old(self).settings@),
                            SettingKind::GameSetting,
                        ),
                        ucd == spec_user_config_dir(old(self)@),
                        vn == vals.len(),
                        i <= vn,
                        vdv == vals.deep_view(),
                        settings is Some && vdv == settings->Some_0.deep_view(),
                        ucd == ucp@,
                        forall|j: int| 0 <= j < i ==> crate::strutil::spec_find(
                            #[trigger] vdv[j],
                            ',',
                        ) is Some,
                        models(self.settings@) == cleared + spec_game_entries(
                            vdv.subrange(0, i as int),
                            ucd,
                        ),
                    decreases vn - i,
                {
                    let mut no_comment = String::new();
                    assert(vals@[i as int]@ == vdv[i as int]);
                    match GameSettingType::try_from(vals[i].as_str(), ucp.as_str(), &mut no_comment)
                    {
                        Ok(g) => {
                            let ghost v1 = self.settings@;
                            self.settings.push(SettingValue::GameSetting(g));
                            proof {
                                lemma_models_push(v1, self.settings@[v1.len() as int]);
                                assert(models(self.settings@) =~= cleared + spec_game_entries(
                                    vdv.subrange(0, i + 1),
                                    ucd,
                                ));
                            }
                        },
                        Err(e) => {
                            proof {
                                assert({
                                    &&& 0 <= i < vdv.len()
                                    &&& crate::strutil::spec_find(vdv[i as int], ',') is None
                                    &&& e@ == (ErrModel::InvalidGameSetting {
                                        value: vdv[i as int],
                                        config_path: ucd,
                                    })
                                    &&& models(self.settings@) == cleared + spec_game_entries(
                                        vdv.subrange(0, i as int),
                                        ucd,
                                    )
                                });
                            }
                            return Err(e);
                        },
                    }
                    i += 1;
                }
                proof {
                    assert(vdv.subrange(0, vn as int) =~= vdv);
                }
                Ok(())
            },
        }
    }

    /// The serialized text a loaded sub-configuration directory should be
    /// written back as, or nothing when no such sub-configuration is part
    /// of the chain (matching by resolved or by raw text).
    pub fn subconfig_serialized(&self, target_dir: &str) -> (r: Option<String>)
        ensures
            ({
                let loaded = exists|i: int| 0 <= i < self@.settings.len() && (
                #[trigger] self@.settings[i]) is SubConfiguration && (
                self@.settings[i]->SubConfiguration_0.parsed == target_dir@
                    || self@.settings[i]->SubConfiguration_0.original == target_dir@);
                match r {
                    Some(t) => loaded && t@ == spec_serialize_for(
                        self@.settings,
                        spec_join(target_dir@, "openmw.cfg"@),
                    ) + SERIALIZER_TRAILER@,
                    None => !loaded,
                }
            }),
    {
        let ghost sv = models(self.settings@);
        let n = self.settings.len();
        let mut i: usize = 0;
        let mut found = false;
        while i < n && !found
            invariant
                n == self.settings.len(),
                i <= n,
                sv == models(self.settings@),
                found ==> exists|j: int| 0 <= j < n && (#[trigger] sv[j]) is SubConfiguration && (
                sv[j]->SubConfiguration_0.parsed == target_dir@
                    || sv[j]->SubConfiguration_0.original == target_dir@),
                !found ==> forall|j: int| 0 <= j < i ==> !((#[trigger] sv[j]) is SubConfiguration
                    && (sv[j]->SubConfiguration_0.parsed == target_dir@
                    || sv[j]->SubConfiguration_0.original == target_dir@)),
            decreases n - i + (if found { 0int } else { 1int }),
        {
            let item = &self.settings[i];
            assert(item@ == sv[i as int]);
            match item {
                SettingValue::SubConfiguration(d) => {
                    if str_eq(d.parsed.as_str(), target_dir) || str_eq(
                        d.original.as_str(),
                        target_dir,
                    ) {
                        found = true;
                        assert((sv[i as int]) is SubConfiguration && (
                        sv[i as int]->SubConfiguration_0.parsed == target_dir@
                            || sv[i as int]->SubConfiguration_0.original == target_dir@));
                    }
                },
                _ => {},
            }
            if !found {
                assert(!((sv[i as int]) is SubConfiguration && (
                sv[i as int]->SubConfiguration_0.parsed == target_dir@
                    || sv[i as int]->SubConfiguration_0.original == target_dir@)));
                i += 1;
            }
        }
        if !found {
            return None;
        }
        let cfg_path = join_path(target_dir, "openmw.cfg");
        Some(self.serialized_for(cfg_path.as_str()))
    }
}


// ---------------------------------------------------------------------------
// Predicate-driven queries and removal
// ---------------------------------------------------------------------------

/// The entries of `v` at positions where `keep` holds, in order.
pub open spec fn spec_mask(v: Seq<SettingModel>, keep: Seq<bool>) -> Seq<SettingModel>
    decreases v.len(),
{
    if v.len() == 0 || v.len() != keep.len() {
        Seq::empty()
    } else if keep.last() {
        spec_mask(v.drop_last(), keep.drop_last()).push(v.last())
    } else {
        spec_mask(v.drop_last(), keep.drop_last())
    }
}

/// The picks of a predicate over a settings list: one decision per entry,
/// each admitted by the predicate's postcondition, with `after` holding the
/// entries decided `sel`.
pub open spec fn decided_by<P: Fn(&SettingValue) -> bool>(
    predicate: P,
    before: Seq<SettingValue>,
    after: Seq<SettingModel>,
    keep: Seq<bool>,
    sel: bool,
) -> bool {
    &&& keep.len() == before.len()
    &&& (forall|i: int| 0 <= i < keep.len() ==> call_ensures(
        predicate,
        (&before[i],),
        keep[i] == sel,
    ))
    &&& after == spec_mask(models(before), keep)
}

impl OpenMWConfiguration {
    /// Copies of the settings the predicate selects, in stored order.  Each
    /// kept or dropped entry is witnessed by a decision the predicate's own
    /// postcondition admits for it.
    pub fn settings_matching<P: Fn(&SettingValue) -> bool>(&self, predicate: P) -> (r: Vec<
        SettingValue,
    >)
        requires
            forall|s: &SettingValue| #[trigger] call_requires(predicate, (s,)),
        ensures
            exists|keep: Seq<bool>| decided_by(predicate, self.settings@, models(r@), keep, true),
    {
        let ghost v0 = self.settings@;
        let mut keep_g: Ghost<Seq<bool>> = Ghost(Seq::empty());
        let mut out: Vec<SettingValue> = Vec::new();
        let n = self.settings.len();
        let mut i: usize = 0;
        proof {
            assert(models(out@) =~= spec_mask(models(v0.subrange(0, 0)), keep_g@));
        }
        while i < n
            invariant
                n == self.settings.len(),
                i <= n,
                v0 == self.settings@,
                keep_g@.len() == i,
                forall|j: int| 0 <= j < i ==> call_ensures(predicate, (&v0[j],), keep_g@[j]),
                forall|s: &SettingValue| #[trigger] call_requires(predicate, (s,)),
                models(out@) == spec_mask(models(v0.subrange(0, i as int)), keep_g@),
            decreases n - i,
        {
            let item = &self.settings[i];
            let b = predicate(item);
            let ghost k0 = keep_g@;
            let ghost o0 = out@;
            proof {
                keep_g@ = keep_g@.push(b);
            }
            if b {
                let c = item.clone();
                out.push(c);
                proof {
                    lemma_models_push(o0, out@[o0.len() as int]);
                }
            }
            proof {
                let mv1 = models(v0.subrange(0, i + 1));
                assert(mv1.drop_last() =~= models(v0.subrange(0, i as int)));
                assert(mv1.last() == v0[i as int]@);
                assert(keep_g@.drop_last() =~= k0);
                assert(keep_g@.last() == b);
                assert(models(out@) =~= spec_mask(mv1, keep_g@));
            }
            i += 1;
        }
        proof {
            assert(models(v0.subrange(0, n as int)) =~= models(v0));
            assert(decided_by(predicate, self.settings@, models(out@), keep_g@, true));
        }
        out
    }

    /// Removes every setting the predicate selects, keeping the rest in
    /// order.  The returned ghost decisions witness, entry by entry, that
    /// the predicate's own postcondition admits what was kept and dropped.
    pub fn clear_matching<P: Fn(&SettingValue) -> bool>(&mut self, predicate: P) -> (decisions:
        Ghost<Seq<bool>>)
        requires
            forall|s: &SettingValue| #[trigger] call_requires(predicate, (s,)),
        ensures
            final(self)@.root == old(self)@.root,
            decided_by(predicate, old(self).settings@, final(self)@.settings, decisions@, false),
    {
        let ghost v0 = self.settings@;
        let mut keep_g: Ghost<Seq<bool>> = Ghost(Seq::empty());
        let mut out: Vec<SettingValue> = Vec::new();
        let n = self.settings.len();
        let mut i: usize = 0;
        proof {
            assert(models(out@) =~= spec_mask(models(v0.subrange(0, 0)), keep_g@));
        }
        while i < n
            invariant
                n == self.settings.len(),
                i <= n,
                v0 == self.settings@,
                keep_g@.len() == i,
                forall|j: int| 0 <= j < i ==> call_ensures(predicate, (&v0[j],), !keep_g@[j]),
                forall|s: &SettingValue| #[trigger] call_requires(predicate, (s,)),
                models(out@) == spec_mask(models(v0.subrange(0, i as int)), keep_g@),
            decreases n - i,
        {
            let item = &self.settings[i];
            let b = predicate(item);
            let ghost k0 = keep_g@;
            let ghost o0 = out@;
            proof {
                keep_g@ = keep_g@.push(!b);
            }
            if !b {
                let c = item.clone();
                out.push(c);
                proof {
                    lemma_models_push(o0, out@[o0.len() as int]);
                }
            }
            proof {
                let mv1 = models(v0.subrange(0, i + 1));
                assert(mv1.drop_last() =~= models(v0.subrange(0, i as int)));
                assert(mv1.last() == v0[i as int]@);
                assert(keep_g@.drop_last() =~= k0);
                assert(keep_g@.last() == !b);
                assert(models(out@) =~= spec_mask(mv1, keep_g@));
            }
            i += 1;
        }
        let ghost keep_w = keep_g@;
        proof {
            assert(models(v0.subrange(0, n as int)) =~= models(v0));
        }
        self.settings = out;
        Ghost(keep_w)
    }
}

} // verus!






