use vstd::prelude::*;
use crate::encodingsetting::EncodingType;

verus! {

// ---------------------------------------------------------------------------
// Mathematical models of the setting records.  Every executable type of the
// crate views into one of these, and all contracts are stated over them.
// ---------------------------------------------------------------------------

pub struct MetaModel {
    pub source: Seq<char>,
    pub comment: Seq<char>,
}

pub struct DirModel {
    pub original: Seq<char>,
    pub parsed: Seq<char>,
    pub meta: MetaModel,
}

pub struct FileModel {
    pub value: Seq<char>,
    pub meta: MetaModel,
}

pub enum GameValueModel {
    Color { r: u8, g: u8, b: u8 },
    Float(Seq<char>),
    Int(i64),
    Text(Seq<char>),
}

pub struct GameModel {
    pub key: Seq<char>,
    pub value: GameValueModel,
    pub meta: MetaModel,
}

pub struct EncodingModel {
    pub encoding: EncodingType,
    pub meta: MetaModel,
}

pub struct GenericModel {
    pub key: Seq<char>,
    pub value: Seq<char>,
    pub meta: MetaModel,
}

pub enum SettingModel {
    DataDirectory(DirModel),
    GameSetting(GameModel),
    UserData(DirModel),
    DataLocal(DirModel),
    Resources(DirModel),
    Encoding(EncodingModel),
    SubConfiguration(DirModel),
    Generic(GenericModel),
    ContentFile(FileModel),
    BethArchive(FileModel),
    Groundcover(FileModel),
}

impl SettingModel {
    pub open spec fn meta(self) -> MetaModel {
        match self {
            SettingModel::DataDirectory(d) => d.meta,
            SettingModel::GameSetting(g) => g.meta,
            SettingModel::UserData(d) => d.meta,
            SettingModel::DataLocal(d) => d.meta,
            SettingModel::Resources(d) => d.meta,
            SettingModel::Encoding(e) => e.meta,
            SettingModel::SubConfiguration(d) => d.meta,
            SettingModel::Generic(g) => g.meta,
            SettingModel::ContentFile(f) => f.meta,
            SettingModel::BethArchive(f) => f.meta,
            SettingModel::Groundcover(f) => f.meta,
        }
    }
}

/// The whole resolved configuration: the root file and the ordered settings
/// of the chain.  Order is load-bearing: later entries override earlier ones.
pub struct ConfigModel {
    pub root: Seq<char>,
    pub settings: Seq<SettingModel>,
}

// ---------------------------------------------------------------------------
// Categories, and searching the ordered sequence by category
// ---------------------------------------------------------------------------

/// The directive categories, as plain tags.
#[derive(Debug, Clone, Copy, PartialEq, Eq, Structural)]
pub enum SettingKind {
    DataDirectory,
    GameSetting,
    UserData,
    DataLocal,
    Resources,
    Encoding,
    SubConfiguration,
    Generic,
    ContentFile,
    BethArchive,
    Groundcover,
}

pub open spec fn is_kind(s: SettingModel, k: SettingKind) -> bool {
    match s {
        SettingModel::DataDirectory(_) => k == SettingKind::DataDirectory,
        SettingModel::GameSetting(_) => k == SettingKind::GameSetting,
        SettingModel::UserData(_) => k == SettingKind::UserData,
        SettingModel::DataLocal(_) => k == SettingKind::DataLocal,
        SettingModel::Resources(_) => k == SettingKind::Resources,
        SettingModel::Encoding(_) => k == SettingKind::Encoding,
        SettingModel::SubConfiguration(_) => k == SettingKind::SubConfiguration,
        SettingModel::Generic(_) => k == SettingKind::Generic,
        SettingModel::ContentFile(_) => k == SettingKind::ContentFile,
        SettingModel::BethArchive(_) => k == SettingKind::BethArchive,
        SettingModel::Groundcover(_) => k == SettingKind::Groundcover,
    }
}

/// Index of the last entry of the category, if any: the effective one.
pub open spec fn spec_last_kind(s: Seq<SettingModel>, k: SettingKind) -> Option<int>
    decreases s.len(),
{
    if s.len() == 0 {
        None
    } else if is_kind(s.last(), k) {
        Some(s.len() - 1)
    } else {
        spec_last_kind(s.drop_last(), k)
    }
}

pub proof fn lemma_last_kind_some(s: Seq<SettingModel>, k: SettingKind, i: int)
    requires
        0 <= i < s.len(),
        is_kind(s[i], k),
        forall|j: int| i < j < s.len() ==> !is_kind(#[trigger] s[j], k),
    ensures
        spec_last_kind(s, k) == Some(i),
    decreases s.len(),
{
    if i < s.len() - 1 {
        assert(!is_kind(s.last(), k));
        assert(s.drop_last()[i] == s[i]);
        assert forall|j: int| i < j < s.drop_last().len() implies !is_kind(
            #[trigger] s.drop_last()[j],
            k,
        ) by {
            assert(s.drop_last()[j] == s[j]);
        }
        lemma_last_kind_some(s.drop_last(), k, i);
    }
}

pub proof fn lemma_last_kind_none(s: Seq<SettingModel>, k: SettingKind)
    requires
        forall|j: int| 0 <= j < s.len() ==> !is_kind(#[trigger] s[j], k),
    ensures
        spec_last_kind(s, k) is None,
    decreases s.len(),
{
    if s.len() > 0 {
        assert forall|j: int| 0 <= j < s.drop_last().len() implies !is_kind(
            #[trigger] s.drop_last()[j],
            k,
        ) by {
            assert(s.drop_last()[j] == s[j]);
        }
        lemma_last_kind_none(s.drop_last(), k);
    }
}

/// Index of the first entry of the category, if any.
pub open spec fn spec_first_kind(s: Seq<SettingModel>, k: SettingKind) -> Option<int>
    decreases s.len(),
{
    if s.len() == 0 {
        None
    } else if is_kind(s[0], k) {
        Some(0)
    } else {
        match spec_first_kind(s.drop_first(), k) {
            Some(i) => Some(i + 1),
            None => None,
        }
    }
}

pub proof fn lemma_first_kind_some(s: Seq<SettingModel>, k: SettingKind, i: int)
    requires
        0 <= i < s.len(),
        is_kind(s[i], k),
        forall|j: int| 0 <= j < i ==> !is_kind(#[trigger] s[j], k),
    ensures
        spec_first_kind(s, k) == Some(i),
    decreases s.len(),
{
    if i > 0 {
        assert(!is_kind(s[0], k));
        assert(s.drop_first()[i - 1] == s[i]);
        assert forall|j: int| 0 <= j < i - 1 implies !is_kind(#[trigger] s.drop_first()[j], k) by {
            assert(s.drop_first()[j] == s[j + 1]);
        }
        lemma_first_kind_some(s.drop_first(), k, i - 1);
    }
}

pub proof fn lemma_first_kind_none(s: Seq<SettingModel>, k: SettingKind)
    requires
        forall|j: int| 0 <= j < s.len() ==> !is_kind(#[trigger] s[j], k),
    ensures
        spec_first_kind(s, k) is None,
    decreases s.len(),
{
    if s.len() > 0 {
        assert forall|j: int| 0 <= j < s.drop_first().len() implies !is_kind(
            #[trigger] s.drop_first()[j],
            k,
        ) by {
            assert(s.drop_first()[j] == s[j + 1]);
        }
        lemma_first_kind_none(s.drop_first(), k);
    }
}

pub proof fn lemma_first_kind_complete(s: Seq<SettingModel>, k: SettingKind)
    ensures
        match spec_first_kind(s, k) {
            Some(i) => 0 <= i < s.len() && is_kind(s[i], k),
            None => forall|j: int| 0 <= j < s.len() ==> !is_kind(#[trigger] s[j], k),
        },
    decreases s.len(),
{
    if s.len() > 0 && !is_kind(s[0], k) {
        lemma_first_kind_complete(s.drop_first(), k);
        match spec_first_kind(s.drop_first(), k) {
            Some(i) => {
                assert(s.drop_first()[i] == s[i + 1]);
            },
            None => {
                assert forall|j: int| 0 <= j < s.len() implies !is_kind(#[trigger] s[j], k) by {
                    if j > 0 {
                        assert(!is_kind(s.drop_first()[j - 1], k));
                    }
                }
            },
        }
    }
}

/// The sequence with every entry of the category removed; the rest keep
/// their order.
pub open spec fn spec_remove_kind(s: Seq<SettingModel>, k: SettingKind) -> Seq<SettingModel>
    decreases s.len(),
{
    if s.len() == 0 {
        Seq::empty()
    } else if is_kind(s.last(), k) {
        spec_remove_kind(s.drop_last(), k)
    } else {
        spec_remove_kind(s.drop_last(), k).push(s.last())
    }
}

/// Index of the last game setting carrying `key`, if any: key lookup
/// ignores the value shape.
pub open spec fn spec_last_game_key(s: Seq<SettingModel>, key: Seq<char>) -> Option<int>
    decreases s.len(),
{
    if s.len() == 0 {
        None
    } else if s.last() is GameSetting && s.last()->GameSetting_0.key == key {
        Some(s.len() - 1)
    } else {
        spec_last_game_key(s.drop_last(), key)
    }
}

pub proof fn lemma_last_game_key_some(s: Seq<SettingModel>, key: Seq<char>, i: int)
    requires
        0 <= i < s.len(),
        s[i] is GameSetting && s[i]->GameSetting_0.key == key,
        forall|j: int| i < j < s.len() ==> !(#[trigger] s[j] is GameSetting
            && s[j]->GameSetting_0.key == key),
    ensures
        spec_last_game_key(s, key) == Some(i),
    decreases s.len(),
{
    if i < s.len() - 1 {
        assert(s.drop_last()[i] == s[i]);
        assert forall|j: int| i < j < s.drop_last().len() implies !(#[trigger] s.drop_last()[j]
            is GameSetting && s.drop_last()[j]->GameSetting_0.key == key) by {
            assert(s.drop_last()[j] == s[j]);
        }
        lemma_last_game_key_some(s.drop_last(), key, i);
    }
}

pub proof fn lemma_last_game_key_none(s: Seq<SettingModel>, key: Seq<char>)
    requires
        forall|j: int| 0 <= j < s.len() ==> !(#[trigger] s[j] is GameSetting
            && s[j]->GameSetting_0.key == key),
    ensures
        spec_last_game_key(s, key) is None,
    decreases s.len(),
{
    if s.len() > 0 {
        assert forall|j: int| 0 <= j < s.drop_last().len() implies !(#[trigger] s.drop_last()[j]
            is GameSetting && s.drop_last()[j]->GameSetting_0.key == key) by {
            assert(s.drop_last()[j] == s[j]);
        }
        lemma_last_game_key_none(s.drop_last(), key);
    }
}

/// Whether the entry belongs to the file-valued category `k` and carries
/// exactly the name `v`.
pub open spec fn has_file_value(s: SettingModel, k: SettingKind, v: Seq<char>) -> bool {
    match s {
        SettingModel::ContentFile(f) => k == SettingKind::ContentFile && f.value == v,
        SettingModel::BethArchive(f) => k == SettingKind::BethArchive && f.value == v,
        SettingModel::Groundcover(f) => k == SettingKind::Groundcover && f.value == v,
        _ => false,
    }
}

/// Index of the first entry of the file-valued category carrying `v`.
pub open spec fn spec_first_file_value(s: Seq<SettingModel>, k: SettingKind, v: Seq<char>) -> Option<
    int,
>
    decreases s.len(),
{
    if s.len() == 0 {
        None
    } else if has_file_value(s[0], k, v) {
        Some(0)
    } else {
        match spec_first_file_value(s.drop_first(), k, v) {
            Some(i) => Some(i + 1),
            None => None,
        }
    }
}

pub proof fn lemma_first_file_value_some(s: Seq<SettingModel>, k: SettingKind, v: Seq<char>, i: int)
    requires
        0 <= i < s.len(),
        has_file_value(s[i], k, v),
        forall|j: int| 0 <= j < i ==> !has_file_value(#[trigger] s[j], k, v),
    ensures
        spec_first_file_value(s, k, v) == Some(i),
    decreases s.len(),
{
    if i > 0 {
        assert(s.drop_first()[i - 1] == s[i]);
        assert forall|j: int| 0 <= j < i - 1 implies !has_file_value(
            #[trigger] s.drop_first()[j],
            k,
            v,
        ) by {
            assert(s.drop_first()[j] == s[j + 1]);
        }
        lemma_first_file_value_some(s.drop_first(), k, v, i - 1);
    }
}

pub proof fn lemma_first_file_value_none(s: Seq<SettingModel>, k: SettingKind, v: Seq<char>)
    requires
        forall|j: int| 0 <= j < s.len() ==> !has_file_value(#[trigger] s[j], k, v),
    ensures
        spec_first_file_value(s, k, v) is None,
    decreases s.len(),
{
    if s.len() > 0 {
        assert forall|j: int| 0 <= j < s.drop_first().len() implies !has_file_value(
            #[trigger] s.drop_first()[j],
            k,
            v,
        ) by {
            assert(s.drop_first()[j] == s[j + 1]);
        }
        lemma_first_file_value_none(s.drop_first(), k, v);
    }
}

// ---------------------------------------------------------------------------
// Decimal rendering
// ---------------------------------------------------------------------------

pub open spec fn spec_digit_char(d: int) -> char {
    (('0' as int) + d) as char
}

/// Decimal text of a non-negative number.
pub open spec fn spec_nat_text(n: int) -> Seq<char>
    decreases n,
{
    if n < 10 {
        seq![spec_digit_char(if n >= 0 { n } else { 0 })]
    } else {
        spec_nat_text(n / 10).push(spec_digit_char(n % 10))
    }
}

/// Decimal text of a signed number, as `i64`'s `Display` writes it.
pub open spec fn spec_int_text(v: int) -> Seq<char> {
    if v < 0 {
        seq!['-'] + spec_nat_text(-v)
    } else {
        spec_nat_text(v)
    }
}

// ---------------------------------------------------------------------------
// Rendering a setting back to its configuration line
// ---------------------------------------------------------------------------

pub open spec fn spec_encoding_text(t: EncodingType) -> Seq<char> {
    match t {
        EncodingType::WIN1250 => "win1250"@,
        EncodingType::WIN1251 => "win1251"@,
        EncodingType::WIN1252 => "win1252"@,
    }
}

/// The textual value of a game setting, as the serializer emits it.
pub open spec fn spec_game_value_text(v: GameValueModel) -> Seq<char> {
    match v {
        GameValueModel::Color { r, g, b } => spec_nat_text(r as int) + ","@ + spec_nat_text(
            g as int,
        ) + ","@ + spec_nat_text(b as int),
        GameValueModel::Float(t) => t,
        GameValueModel::Int(i) => spec_int_text(i as int),
        GameValueModel::Text(t) => t,
    }
}

/// The full line block a setting serializes to: its comment block, then its
/// directive with a trailing newline.
pub open spec fn spec_render(s: SettingModel) -> Seq<char> {
    match s {
        SettingModel::DataDirectory(d) => d.meta.comment + "data="@ + d.original + "\n"@,
        SettingModel::UserData(d) => d.meta.comment + "user-data="@ + d.original + "\n"@,
        SettingModel::DataLocal(d) => d.meta.comment + "data-local="@ + d.original + "\n"@,
        SettingModel::Resources(d) => d.meta.comment + "resources="@ + d.original + "\n"@,
        SettingModel::SubConfiguration(d) => d.meta.comment + "config="@ + d.original + "\n"@,
        SettingModel::ContentFile(f) => f.meta.comment + "content="@ + f.value + "\n"@,
        SettingModel::BethArchive(f) => f.meta.comment + "fallback-archive="@ + f.value + "\n"@,
        SettingModel::Groundcover(f) => f.meta.comment + "groundcover="@ + f.value + "\n"@,
        SettingModel::GameSetting(g) => g.meta.comment + "fallback="@ + g.key + ","@
            + spec_game_value_text(g.value) + "\n"@,
        SettingModel::Encoding(e) => e.meta.comment + "encoding="@ + spec_encoding_text(
            e.encoding,
        ) + "\n"@,
        SettingModel::Generic(g) => g.meta.comment + g.key + "="@ + g.value + "\n"@,
    }
}

// ---------------------------------------------------------------------------
// Executable decimal rendering, proved against the spec above
// ---------------------------------------------------------------------------

fn digit_char(d: u64) -> (r: char)
    requires
        d < 10,
    ensures
        r == spec_digit_char(d as int),
{
    let b: u8 = 48 + (d as u8);
    b as char
}

fn push_nat_text(s: &mut String, n: u64)
    ensures
        final(s)@ == old(s)@ + spec_nat_text(n as int),
    decreases n,
{
    if n < 10 {
        s.push(digit_char(n));
        assert(final(s)@ =~= old(s)@ + spec_nat_text(n as int));
    } else {
        push_nat_text(s, n / 10);
        s.push(digit_char(n % 10));
        assert(final(s)@ =~= old(s)@ + spec_nat_text(n as int));
    }
}

pub fn u8_text(n: u8) -> (r: String)
    ensures
        r@ == spec_nat_text(n as int),
{
    let mut s = String::new();
    push_nat_text(&mut s, n as u64);
    assert(s@ =~= spec_nat_text(n as int));
    s
}

pub fn i64_text(v: i64) -> (r: String)
    ensures
        r@ == spec_int_text(v as int),
{
    let mut s = String::new();
    if v < 0 {
        s.push('-');
        let mag: u64 = if v == i64::MIN {
            0x8000_0000_0000_0000
        } else {
            (-v) as u64
        };
        push_nat_text(&mut s, mag);
        assert(s@ =~= spec_int_text(v as int));
    } else {
        push_nat_text(&mut s, v as u64);
        assert(s@ =~= spec_int_text(v as int));
    }
    s
}

} // verus!
