use vstd::prelude::*;
use vstd::string::{StrSliceExecFns, StringExecFns};
use crate::config::{SettingValue, OpenMWConfiguration, FileStore, PathDefaults, models,
    spec_lookup, retain_vec_not_kind, first_index_of_kind, first_file_value_index,
    lemma_models_push, lemma_models_remove, lemma_models_insert};
use crate::directorysetting::DirectorySetting;
use crate::encodingsetting::{EncodingSetting, spec_parse_encoding};
use crate::error::{ConfigError, ErrModel};
use crate::filesetting::FileSetting;
use crate::gamesetting::{GameSettingType, spec_game_setting};
use crate::genericsetting::GenericSetting;
use crate::model::{SettingModel, ConfigModel, SettingKind, MetaModel, DirModel, FileModel,
    EncodingModel, GenericModel, spec_remove_kind, spec_first_kind, spec_first_file_value,
    spec_last_kind};
use crate::paths::{join_path, parent_dir, spec_join, spec_parent, spec_resolve};
use crate::strutil::{spec_trim, spec_find, spec_lines, str_trim, str_find, str_lines, str_eq,
    lemma_spec_find, take_string};

verus! {

// ---------------------------------------------------------------------------
// The loader's state while one file is being read: the settings gathered so
// far across the whole chain, the sub-configuration references queued by
// the current file, and the pending comment block.
// ---------------------------------------------------------------------------

pub struct LoadState {
    pub settings: Seq<SettingModel>,
    pub queue: Seq<(Seq<char>, Seq<char>)>,
    pub pending: Seq<char>,
}

/// The models of a queued `(raw value, comment)` list.
pub open spec fn queue_models(q: Seq<(String, String)>) -> Seq<(Seq<char>, Seq<char>)> {
    Seq::new(q.len(), |i: int| (q[i].0@, q[i].1@))
}

pub open spec fn spec_parent_or_empty(p: Seq<char>) -> Seq<char> {
    match spec_parent(p) {
        Some(d) => d,
        None => Seq::empty(),
    }
}

// ---------------------------------------------------------------------------
// ASCII lowering (for `replace=` targets)
// ---------------------------------------------------------------------------

pub open spec fn spec_lower_char(c: char) -> char {
    if 'A' <= c && c <= 'Z' {
        ((c as int) + 32) as char
    } else {
        c
    }
}

pub open spec fn spec_lower_ascii(v: Seq<char>) -> Seq<char> {
    v.map_values(|c: char| spec_lower_char(c))
}

fn lower_ascii(v: &str) -> (r: String)
    ensures
        r@ == spec_lower_ascii(v@),
{
    let n = v.unicode_len();
    let mut res = String::new();
    let mut i: usize = 0;
    while i < n
        invariant
            n == v@.len(),
            i <= n,
            res@.len() == i,
            forall|j: int| 0 <= j < i ==> res@[j] == spec_lower_ascii(v@)[j],
        decreases n - i,
    {
        let c = v.get_char(i);
        if 'A' <= c && c <= 'Z' {
            let b: u8 = (c as u8) + 32;
            res.push(b as char);
        } else {
            res.push(c);
        }
        i += 1;
    }
    assert(res@ =~= spec_lower_ascii(v@));
    res
}

// ---------------------------------------------------------------------------
// One line of a configuration file, applied to the state
// ---------------------------------------------------------------------------

/// What a `replace=` directive does to the accumulated settings: the named
/// category is discarded wholesale, the whole list for `config`, and an
/// unrecognised target is ignored.
pub open spec fn spec_replace_step(settings: Seq<SettingModel>, target: Seq<char>) -> Seq<
    SettingModel,
> {
    let t = spec_lower_ascii(target);
    if t == "content"@ {
        spec_remove_kind(settings, SettingKind::ContentFile)
    } else if t == "data"@ {
        spec_remove_kind(settings, SettingKind::DataDirectory)
    } else if t == "fallback"@ {
        spec_remove_kind(settings, SettingKind::GameSetting)
    } else if t == "fallback-archives"@ {
        spec_remove_kind(settings, SettingKind::BethArchive)
    } else if t == "data-local"@ {
        spec_remove_kind(settings, SettingKind::DataLocal)
    } else if t == "resources"@ {
        spec_remove_kind(settings, SettingKind::Resources)
    } else if t == "user-data"@ {
        spec_remove_kind(settings, SettingKind::UserData)
    } else if t == "config"@ {
        Seq::empty()
    } else {
        settings
    }
}

/// What one `key=value` directive does to the state.  `path` is the file
/// being read, `base` its directory, `ud`/`uc` the injected platform
/// directories.
pub open spec fn spec_apply_directive(
    st: LoadState,
    key: Seq<char>,
    value: Seq<char>,
    path: Seq<char>,
    base: Seq<char>,
    ud: Seq<char>,
    uc: Seq<char>,
) -> Result<LoadState, ErrModel> {
    if key == "content"@ {
        if spec_first_file_value(st.settings, SettingKind::ContentFile, value) is Some {
            Err(ErrModel::DuplicateContentFile { file: value, config_path: path })
        } else {
            Ok(
                LoadState {
                    settings: st.settings.push(
                        SettingModel::ContentFile(
                            FileModel {
                                value,
                                meta: MetaModel { source: path, comment: st.pending },
                            },
                        ),
                    ),
                    queue: st.queue,
                    pending: Seq::empty(),
                },
            )
        }
    } else if key == "groundcover"@ {
        if spec_first_file_value(st.settings, SettingKind::Groundcover, value) is Some {
            Err(ErrModel::DuplicateGroundcoverFile { file: value, config_path: path })
        } else {
            Ok(
                LoadState {
                    settings: st.settings.push(
                        SettingModel::Groundcover(
                            FileModel {
                                value,
                                meta: MetaModel { source: path, comment: st.pending },
                            },
                        ),
                    ),
                    queue: st.queue,
                    pending: Seq::empty(),
                },
            )
        }
    } else if key == "fallback-archive"@ {
        if spec_first_file_value(st.settings, SettingKind::BethArchive, value) is Some {
            Err(ErrModel::DuplicateArchiveFile { file: value, config_path: path })
        } else {
            Ok(
                LoadState {
                    settings: st.settings.push(
                        SettingModel::BethArchive(
                            FileModel {
                                value,
                                meta: MetaModel { source: path, comment: st.pending },
                            },
                        ),
                    ),
                    queue: st.queue,
                    pending: Seq::empty(),
                },
            )
        }
    } else if key == "fallback"@ {
        if spec_find(value, ',') is Some {
            Ok(
                LoadState {
                    settings: st.settings.push(
                        SettingModel::GameSetting(spec_game_setting(value, path, st.pending)),
                    ),
                    queue: st.queue,
                    pending: Seq::empty(),
                },
            )
        } else {
            Err(ErrModel::InvalidGameSetting { value, config_path: path })
        }
    } else if key == "encoding"@ {
        match spec_parse_encoding(value) {
            Some(t) => {
                let e = SettingModel::Encoding(
                    EncodingModel {
                        encoding: t,
                        meta: MetaModel { source: path, comment: st.pending },
                    },
                );
                let ns = match spec_first_kind(st.settings, SettingKind::Encoding) {
                    Some(i) => st.settings.update(i, e),
                    None => st.settings.push(e),
                };
                Ok(LoadState { settings: ns, queue: st.queue, pending: Seq::empty() })
            },
            None => Err(ErrModel::BadEncoding { value, config_path: path }),
        }
    } else if key == "config"@ {
        Ok(
            LoadState {
                settings: st.settings,
                queue: st.queue.push((value, st.pending)),
                pending: Seq::empty(),
            },
        )
    } else if key == "data"@ {
        Ok(
            LoadState {
                settings: st.settings.push(
                    SettingModel::DataDirectory(
                        DirModel {
                            original: value,
                            parsed: spec_resolve(base, value, ud, uc),
                            meta: MetaModel { source: path, comment: st.pending },
                        },
                    ),
                ),
                queue: st.queue,
                pending: Seq::empty(),
            },
        )
    } else if key == "resources"@ {
        Ok(
            LoadState {
                settings: st.settings.push(
                    SettingModel::Resources(
                        DirModel {
                            original: value,
                            parsed: spec_resolve(base, value, ud, uc),
                            meta: MetaModel { source: path, comment: st.pending },
                        },
                    ),
                ),
                queue: st.queue,
                pending: Seq::empty(),
            },
        )
    } else if key == "user-data"@ {
        Ok(
            LoadState {
                settings: st.settings.push(
                    SettingModel::UserData(
                        DirModel {
                            original: value,
                            parsed: spec_resolve(base, value, ud, uc),
                            meta: MetaModel { source: path, comment: st.pending },
                        },
                    ),
                ),
                queue: st.queue,
                pending: Seq::empty(),
            },
        )
    } else if key == "data-local"@ {
        Ok(
            LoadState {
                settings: st.settings.push(
                    SettingModel::DataLocal(
                        DirModel {
                            original: value,
                            parsed: spec_resolve(base, value, ud, uc),
                            meta: MetaModel { source: path, comment: st.pending },
                        },
                    ),
                ),
                queue: st.queue,
                pending: Seq::empty(),
            },
        )
    } else if key == "replace"@ {
        Ok(
            LoadState {
                settings: spec_replace_step(st.settings, value),
                queue: st.queue,
                pending: st.pending,
            },
        )
    } else {
        Ok(
            LoadState {
                settings: st.settings.push(
                    SettingModel::Generic(
                        GenericModel {
                            key,
                            value,
                            meta: MetaModel { source: path, comment: st.pending },
                        },
                    ),
                ),
                queue: st.queue,
                pending: Seq::empty(),
            },
        )
    }
}

/// What one raw line does to the state: blank lines and `#` lines grow the
/// pending comment block; anything else must be a `key=value` directive.
pub open spec fn spec_line_step(
    st: LoadState,
    line: Seq<char>,
    path: Seq<char>,
    base: Seq<char>,
    ud: Seq<char>,
    uc: Seq<char>,
) -> Result<LoadState, ErrModel> {
    let t = spec_trim(line);
    if t.len() == 0 {
        Ok(LoadState { settings: st.settings, queue: st.queue, pending: st.pending.push('\n') })
    } else if t[0] == '#' {
        Ok(
            LoadState {
                settings: st.settings,
                queue: st.queue,
                pending: st.pending + line + "\n"@,
            },
        )
    } else {
        match spec_find(t, '=') {
            None => Err(ErrModel::InvalidLine { value: t, config_path: path }),
            Some(e) => spec_apply_directive(
                st,
                spec_trim(t.subrange(0, e)),
                spec_trim(t.subrange(e + 1, t.len() as int)),
                path,
                base,
                ud,
                uc,
            ),
        }
    }
}

/// The lines of one file, applied in order from line `i` on.
pub open spec fn spec_parse_lines(
    st: LoadState,
    lines: Seq<Seq<char>>,
    i: int,
    path: Seq<char>,
    base: Seq<char>,
    ud: Seq<char>,
    uc: Seq<char>,
) -> Result<LoadState, ErrModel>
    decreases lines.len() - i,
{
    if i < 0 || i >= lines.len() {
        Ok(st)
    } else {
        match spec_line_step(st, lines[i], path, base, ud, uc) {
            Err(e) => Err(e),
            Ok(st2) => spec_parse_lines(st2, lines, i + 1, path, base, ud, uc),
        }
    }
}

// ---------------------------------------------------------------------------
// The chain: one file, then its queued sub-configurations depth-first in
// declaration order
// ---------------------------------------------------------------------------

pub open spec fn spec_load_file(
    files: Seq<(Seq<char>, Seq<char>)>,
    settings: Seq<SettingModel>,
    path: Seq<char>,
    ud: Seq<char>,
    uc: Seq<char>,
    fuel: nat,
) -> Result<Seq<SettingModel>, ErrModel>
    decreases fuel, 1int, 0int,
{
    match spec_lookup(files, path) {
        None => Err(ErrModel::CannotFind { config_path: path }),
        Some(text) => {
            let base = spec_parent_or_empty(path);
            match spec_parse_lines(
                LoadState { settings, queue: Seq::empty(), pending: Seq::empty() },
                spec_lines(text),
                0,
                path,
                base,
                ud,
                uc,
            ) {
                Err(e) => Err(e),
                Ok(st) => spec_load_queue(files, st.settings, st.queue, 0, base, path, ud, uc, fuel),
            }
        },
    }
}

pub open spec fn spec_load_queue(
    files: Seq<(Seq<char>, Seq<char>)>,
    settings: Seq<SettingModel>,
    queue: Seq<(Seq<char>, Seq<char>)>,
    qi: int,
    base: Seq<char>,
    path: Seq<char>,
    ud: Seq<char>,
    uc: Seq<char>,
    fuel: nat,
) -> Result<Seq<SettingModel>, ErrModel>
    decreases fuel, 0int, queue.len() - qi,
{
    if qi < 0 || qi >= queue.len() {
        Ok(settings)
    } else {
        let value = queue[qi].0;
        let comment = queue[qi].1;
        let parsed = spec_resolve(base, value, ud, uc);
        let child = spec_join(parsed, "openmw.cfg"@);
        if spec_lookup(files, child) is Some {
            if fuel == 0 {
                Err(ErrModel::RecursionLimit { config_path: child })
            } else {
                let sub = SettingModel::SubConfiguration(
                    DirModel {
                        original: value,
                        parsed,
                        meta: MetaModel { source: path, comment },
                    },
                );
                match spec_load_file(files, settings.push(sub), child, ud, uc, (fuel - 1) as nat) {
                    Err(e) => Err(e),
                    Ok(s2) => spec_load_queue(files, s2, queue, qi + 1, base, path, ud, uc, fuel),
                }
            }
        } else {
            spec_load_queue(files, settings, queue, qi + 1, base, path, ud, uc, fuel)
        }
    }
}

/// Resolving the caller's starting point: a path filed as a configuration
/// file is taken as it is; otherwise its `openmw.cfg` below it; otherwise
/// the chain cannot be found.
pub open spec fn spec_input_config_path(
    files: Seq<(Seq<char>, Seq<char>)>,
    p: Seq<char>,
) -> Result<Seq<char>, ErrModel> {
    if spec_lookup(files, p) is Some {
        Ok(p)
    } else if spec_lookup(files, spec_join(p, "openmw.cfg"@)) is Some {
        Ok(spec_join(p, "openmw.cfg"@))
    } else {
        Err(ErrModel::CannotFind { config_path: p })
    }
}

/// After the chain has loaded, two synthetic data directories derived from
/// the effective resources directory are placed at the very front.
pub open spec fn spec_post_process(
    root: Seq<char>,
    settings: Seq<SettingModel>,
    ud: Seq<char>,
    uc: Seq<char>,
) -> ConfigModel {
    match spec_last_kind(settings, SettingKind::Resources) {
        Some(i) => {
            let dir = settings[i]->Resources_0.parsed;
            let engine = DirModel {
                original: spec_join(dir, "vfs"@),
                parsed: spec_resolve(root, spec_join(dir, "vfs"@), ud, uc),
                meta: MetaModel { source: root, comment: Seq::empty() },
            };
            let mw = DirModel {
                original: spec_join(dir, "vfs-mw"@),
                parsed: spec_resolve(root, spec_join(dir, "vfs-mw"@), ud, uc),
                meta: MetaModel { source: root, comment: Seq::empty() },
            };
            ConfigModel {
                root,
                settings: seq![
                    SettingModel::DataDirectory(engine),
                    SettingModel::DataDirectory(mw),
                ] + settings,
            }
        },
        None => ConfigModel { root, settings },
    }
}

/// The whole construction: resolve the root, load the chain, post-process.
pub open spec fn spec_new_config(
    files: Seq<(Seq<char>, Seq<char>)>,
    path: Option<Seq<char>>,
    ud: Seq<char>,
    uc: Seq<char>,
    fuel: nat,
) -> Result<ConfigModel, ErrModel> {
    let rootr = match path {
        Some(p) => spec_input_config_path(files, p),
        None => Ok(spec_join(uc, "openmw.cfg"@)),
    };
    match rootr {
        Err(e) => Err(e),
        Ok(root) => match spec_load_file(files, Seq::empty(), root, ud, uc, fuel) {
            Err(e) => Err(e),
            Ok(settings) => Ok(spec_post_process(root, settings, ud, uc)),
        },
    }
}


// ---------------------------------------------------------------------------
// Executable loading
// ---------------------------------------------------------------------------

proof fn lemma_queue_push(q: Seq<(String, String)>, x: (String, String))
    ensures
        queue_models(q.push(x)) =~= queue_models(q).push((x.0@, x.1@)),
{
    assert forall|j: int| 0 <= j < q.len() + 1 implies queue_models(q.push(x))[j] == queue_models(
        q,
    ).push((x.0@, x.1@))[j] by {
        if j < q.len() {
            assert(q.push(x)[j] == q[j]);
        } else {
            assert(q.push(x)[j] == x);
        }
    }
}

/// Applies one raw line of `path` to the accumulated state.
fn apply_line(
    settings: &mut Vec<SettingValue>,
    queue: &mut Vec<(String, String)>,
    pending: &mut String,
    line: &str,
    path: &str,
    base: &str,
    user_data: &str,
    user_config: &str,
) -> (r: Result<(), ConfigError>)
    ensures
        ({
            let st0 = LoadState {
                settings: models(old(settings)@),
                queue: queue_models(old(queue)@),
                pending: old(pending)@,
            };
            match spec_line_step(st0, line@, path@, base@, user_data@, user_config@) {
                Ok(st) => {
                    &&& r is Ok
                    &&& models(final(settings)@) == st.settings
                    &&& queue_models(final(queue)@) == st.queue
                    &&& final(pending)@ == st.pending
                },
                Err(e) => r is Err && r->Err_0@ == e,
            }
        }),
{
    let ghost st0 = LoadState {
        settings: models(settings@),
        queue: queue_models(queue@),
        pending: pending@,
    };
    let trimmed = str_trim(line);
    let tn = trimmed.unicode_len();
    if tn == 0 {
        pending.push('\n');
        return Ok(());
    }
    if trimmed.get_char(0) == '#' {
        pending.append(line);
        pending.push('\n');
        proof {
            reveal_strlit("\n");
            assert(pending@ =~= st0.pending + line@ + "\n"@);
        }
        return Ok(());
    }
    let eq: usize = match str_find(trimmed, '=') {
        Some(e) => e,
        None => {
            return Err(
                ConfigError::InvalidLine {
                    value: trimmed.to_owned(),
                    config_path: path.to_owned(),
                },
            );
        },
    };
    proof {
        lemma_spec_find(trimmed@, '=');
    }
    let key = str_trim(trimmed.substring_char(0, eq));
    let value = str_trim(trimmed.substring_char(eq + 1, tn));
    if str_eq(key, "content") {
        match first_file_value_index(settings, SettingKind::ContentFile, value) {
            Some(_) => Err(
                ConfigError::DuplicateContentFile {
                    file: value.to_owned(),
                    config_path: path.to_owned(),
                },
            ),
            None => {
                let fs = FileSetting::new(value, path, pending);
                let ghost v1 = settings@;
                settings.push(SettingValue::ContentFile(fs));
                proof {
                    lemma_models_push(v1, settings@[v1.len() as int]);
                    assert(models(settings@) =~= st0.settings.push(
                        settings@[v1.len() as int]@,
                    ));
                }
                Ok(())
            },
        }
    } else if str_eq(key, "groundcover") {
        match first_file_value_index(settings, SettingKind::Groundcover, value) {
            Some(_) => Err(
                ConfigError::DuplicateGroundcoverFile {
                    file: value.to_owned(),
                    config_path: path.to_owned(),
                },
            ),
            None => {
                let fs = FileSetting::new(value, path, pending);
                let ghost v1 = settings@;
                settings.push(SettingValue::Groundcover(fs));
                proof {
                    lemma_models_push(v1, settings@[v1.len() as int]);
                    assert(models(settings@) =~= st0.settings.push(
                        settings@[v1.len() as int]@,
                    ));
                }
                Ok(())
            },
        }
    } else if str_eq(key, "fallback-archive") {
        match first_file_value_index(settings, SettingKind::BethArchive, value) {
            Some(_) => Err(
                ConfigError::DuplicateArchiveFile {
                    file: value.to_owned(),
                    config_path: path.to_owned(),
                },
            ),
            None => {
                let fs = FileSetting::new(value, path, pending);
                let ghost v1 = settings@;
                settings.push(SettingValue::BethArchive(fs));
                proof {
                    lemma_models_push(v1, settings@[v1.len() as int]);
                    assert(models(settings@) =~= st0.settings.push(
                        settings@[v1.len() as int]@,
                    ));
                }
                Ok(())
            },
        }
    } else if str_eq(key, "fallback") {
        match GameSettingType::try_from(value, path, pending) {
            Ok(g) => {
                let ghost v1 = settings@;
                settings.push(SettingValue::GameSetting(g));
                proof {
                    lemma_models_push(v1, settings@[v1.len() as int]);
                    assert(models(settings@) =~= st0.settings.push(
                        settings@[v1.len() as int]@,
                    ));
                }
                Ok(())
            },
            Err(e) => Err(e),
        }
    } else if str_eq(key, "encoding") {
        match EncodingSetting::try_from(value, path, pending) {
            Err(e) => Err(e),
            Ok(enc) => {
                match first_index_of_kind(settings, SettingKind::Encoding) {
                    Some(i) => {
                        let ghost em = enc@;
                        let ghost v1 = settings@;
                        settings.remove(i);
                        let ghost v2 = settings@;
                        settings.insert(i, SettingValue::Encoding(enc));
                        proof {
                            lemma_models_remove(v1, i as int);
                            lemma_models_insert(v2, i as int, settings@[i as int]);
                            assert(settings@[i as int]@ == SettingModel::Encoding(em));
                            vstd::seq_lib::lemma_update_is_remove_insert(
                                st0.settings,
                                i as int,
                                SettingModel::Encoding(em),
                            );
                            assert(models(settings@) =~= st0.settings.update(
                                i as int,
                                SettingModel::Encoding(em),
                            ));
                        }
                        Ok(())
                    },
                    None => {
                        let ghost v1 = settings@;
                        settings.push(SettingValue::Encoding(enc));
                        proof {
                            lemma_models_push(v1, settings@[v1.len() as int]);
                            assert(models(settings@) =~= st0.settings.push(
                                settings@[v1.len() as int]@,
                            ));
                        }
                        Ok(())
                    },
                }
            },
        }
    } else if str_eq(key, "config") {
        let com = take_string(pending);
        let ghost q1 = queue@;
        queue.push((value.to_owned(), com));
        proof {
            lemma_queue_push(q1, queue@[q1.len() as int]);
            assert(queue_models(queue@) =~= st0.queue.push((value@, st0.pending)));
        }
        Ok(())
    } else if str_eq(key, "data") {
        let ds = DirectorySetting::new_resolved(value, base, path, pending, user_data, user_config);
        let ghost v1 = settings@;
        settings.push(SettingValue::DataDirectory(ds));
        proof {
            lemma_models_push(v1, settings@[v1.len() as int]);
            assert(models(settings@) =~= st0.settings.push(settings@[v1.len() as int]@));
        }
        Ok(())
    } else if str_eq(key, "resources") {
        let ds = DirectorySetting::new_resolved(value, base, path, pending, user_data, user_config);
        let ghost v1 = settings@;
        settings.push(SettingValue::Resources(ds));
        proof {
            lemma_models_push(v1, settings@[v1.len() as int]);
            assert(models(settings@) =~= st0.settings.push(settings@[v1.len() as int]@));
        }
        Ok(())
    } else if str_eq(key, "user-data") {
        let ds = DirectorySetting::new_resolved(value, base, path, pending, user_data, user_config);
        let ghost v1 = settings@;
        settings.push(SettingValue::UserData(ds));
        proof {
            lemma_models_push(v1, settings@[v1.len() as int]);
            assert(models(settings@) =~= st0.settings.push(settings@[v1.len() as int]@));
        }
        Ok(())
    } else if str_eq(key, "data-local") {
        let ds = DirectorySetting::new_resolved(value, base, path, pending, user_data, user_config);
        let ghost v1 = settings@;
        settings.push(SettingValue::DataLocal(ds));
        proof {
            lemma_models_push(v1, settings@[v1.len() as int]);
            assert(models(settings@) =~= st0.settings.push(settings@[v1.len() as int]@));
        }
        Ok(())
    } else if str_eq(key, "replace") {
        let low = lower_ascii(value);
        if str_eq(low.as_str(), "content") {
            retain_vec_not_kind(settings, SettingKind::ContentFile);
        } else if str_eq(low.as_str(), "data") {
            retain_vec_not_kind(settings, SettingKind::DataDirectory);
        } else if str_eq(low.as_str(), "fallback") {
            retain_vec_not_kind(settings, SettingKind::GameSetting);
        } else if str_eq(low.as_str(), "fallback-archives") {
            retain_vec_not_kind(settings, SettingKind::BethArchive);
        } else if str_eq(low.as_str(), "data-local") {
            retain_vec_not_kind(settings, SettingKind::DataLocal);
        } else if str_eq(low.as_str(), "resources") {
            retain_vec_not_kind(settings, SettingKind::Resources);
        } else if str_eq(low.as_str(), "user-data") {
            retain_vec_not_kind(settings, SettingKind::UserData);
        } else if str_eq(low.as_str(), "config") {
            settings.clear();
            proof {
                assert(models(settings@) =~= Seq::<SettingModel>::empty());
            }
        }
        Ok(())
    } else {
        let g = GenericSetting::new(key, value, path, pending);
        let ghost v1 = settings@;
        settings.push(SettingValue::Generic(g));
        proof {
            lemma_models_push(v1, settings@[v1.len() as int]);
            assert(models(settings@) =~= st0.settings.push(settings@[v1.len() as int]@));
        }
        Ok(())
    }
}

/// Reads one file's text line by line, appending its settings and handing
/// back the queued sub-configuration references.
fn parse_file_text(
    settings: &mut Vec<SettingValue>,
    text: &str,
    path: &str,
    base: &str,
    user_data: &str,
    user_config: &str,
) -> (r: Result<Vec<(String, String)>, ConfigError>)
    ensures
        ({
            let st0 = LoadState {
                settings: models(old(settings)@),
                queue: Seq::empty(),
                pending: Seq::empty(),
            };
            match spec_parse_lines(
                st0,
                spec_lines(text@),
                0,
                path@,
                base@,
                user_data@,
                user_config@,
            ) {
                Ok(st) => {
                    &&& r is Ok
                    &&& models(final(settings)@) == st.settings
                    &&& queue_models(r->Ok_0@) == st.queue
                },
                Err(e) => r is Err && r->Err_0@ == e,
            }
        }),
{
    let lines = str_lines(text);
    let ghost lns = lines.deep_view();
    let mut queue: Vec<(String, String)> = Vec::new();
    let mut pending = String::new();
    let ghost st0 = LoadState {
        settings: models(settings@),
        queue: Seq::empty(),
        pending: Seq::empty(),
    };
    proof {
        assert(queue_models(queue@) =~= Seq::<(Seq<char>, Seq<char>)>::empty());
    }
    let n = lines.len();
    let mut i: usize = 0;
    while i < n
        invariant
            n == lines.len(),
            i <= n,
            lns == lines.deep_view(),
            lns == spec_lines(text@),
            st0 == (LoadState {
                settings: models(old(settings)@),
                queue: Seq::<(Seq<char>, Seq<char>)>::empty(),
                pending: Seq::<char>::empty(),
            }),
            spec_parse_lines(st0, lns, 0, path@, base@, user_data@, user_config@)
                == spec_parse_lines(
                LoadState {
                    settings: models(settings@),
                    queue: queue_models(queue@),
                    pending: pending@,
                },
                lns,
                i as int,
                path@,
                base@,
                user_data@,
                user_config@,
            ),
        decreases n - i,
    {
        let ghost cur = LoadState {
            settings: models(settings@),
            queue: queue_models(queue@),
            pending: pending@,
        };
        assert(lines@[i as int]@ == lns[i as int]);
        match apply_line(
            settings,
            &mut queue,
            &mut pending,
            lines[i].as_str(),
            path,
            base,
            user_data,
            user_config,
        ) {
            Ok(_) => {},
            Err(e) => {
                proof {
                    assert(spec_line_step(cur, lns[i as int], path@, base@, user_data@,
                        user_config@) == Err::<LoadState, ErrModel>(e@));
                }
                return Err(e);
            },
        }
        i += 1;
    }
    Ok(queue)
}

/// Loads the file at `path` and, depth-first in declaration order, every
/// chain member it references.  `fuel` bounds the reference depth; a chain
/// deeper than the store has files is necessarily cyclic and is refused.
fn load_file(
    settings: &mut Vec<SettingValue>,
    files: &FileStore,
    path: &str,
    defaults: &PathDefaults,
    fuel: usize,
) -> (r: Result<(), ConfigError>)
    ensures
        ({
            match spec_load_file(
                files@,
                models(old(settings)@),
                path@,
                defaults.user_data@,
                defaults.user_config@,
                fuel as nat,
            ) {
                Ok(s) => r is Ok && models(final(settings)@) == s,
                Err(e) => r is Err && r->Err_0@ == e,
            }
        }),
    decreases fuel,
{
    let text: String = match files.lookup(path) {
        Some(t) => t.clone(),
        None => {
            return Err(ConfigError::CannotFind { config_path: path.to_owned() });
        },
    };
    let base: String = match parent_dir(path) {
        Some(d) => d,
        None => String::new(),
    };
    assert(base@ == spec_parent_or_empty(path@));
    let queue = match parse_file_text(
        settings,
        text.as_str(),
        path,
        base.as_str(),
        defaults.user_data.as_str(),
        defaults.user_config.as_str(),
    ) {
        Ok(q) => q,
        Err(e) => {
            return Err(e);
        },
    };
    let ghost qm = queue_models(queue@);
    let ghost after_parse = models(settings@);
    let qn = queue.len();
    let mut qi: usize = 0;
    while qi < qn
        invariant
            qn == queue.len(),
            qm == queue_models(queue@),
            qi <= qn,
            spec_load_file(
                files@,
                models(old(settings)@),
                path@,
                defaults.user_data@,
                defaults.user_config@,
                fuel as nat,
            ) == spec_load_queue(
                files@,
                after_parse,
                qm,
                0,
                base@,
                path@,
                defaults.user_data@,
                defaults.user_config@,
                fuel as nat,
            ),
            spec_load_queue(
                files@,
                after_parse,
                qm,
                0,
                base@,
                path@,
                defaults.user_data@,
                defaults.user_config@,
                fuel as nat,
            ) == spec_load_queue(
                files@,
                models(settings@),
                qm,
                qi as int,
                base@,
                path@,
                defaults.user_data@,
                defaults.user_config@,
                fuel as nat,
            ),
        decreases qn - qi,
    {
        let ghost before = models(settings@);
        let val = queue[qi].0.clone();
        let mut com = queue[qi].1.clone();
        assert(val@ == qm[qi as int].0 && com@ == qm[qi as int].1);
        let ds = DirectorySetting::new_resolved(
            val.as_str(),
            base.as_str(),
            path,
            &mut com,
            defaults.user_data.as_str(),
            defaults.user_config.as_str(),
        );
        let child = join_path(ds.parsed().as_str(), "openmw.cfg");
        if files.contains(child.as_str()) {
            if fuel == 0 {
                proof {
                    assert(spec_load_queue(
                        files@,
                        before,
                        qm,
                        qi as int,
                        base@,
                        path@,
                        defaults.user_data@,
                        defaults.user_config@,
                        fuel as nat,
                    ) == Err::<Seq<SettingModel>, ErrModel>(
                        ErrModel::RecursionLimit { config_path: child@ },
                    ));
                }
                return Err(ConfigError::RecursionLimit { config_path: child });
            }
            let ghost v1 = settings@;
            settings.push(SettingValue::SubConfiguration(ds));
            proof {
                lemma_models_push(v1, settings@[v1.len() as int]);
                assert(models(settings@) =~= before.push(settings@[v1.len() as int]@));
            }
            match load_file(settings, files, child.as_str(), defaults, fuel - 1) {
                Ok(_) => {},
                Err(e) => {
                    return Err(e);
                },
            }
        }
        qi += 1;
    }
    Ok(())
}

impl OpenMWConfiguration {
    /// Loads the whole chain from the given starting point, or from the
    /// injected user-configuration directory when none is given.  The store
    /// holds the text of every configuration file the chain may reach.
    pub fn new(files: &FileStore, path: Option<String>, defaults: &PathDefaults) -> (r: Result<
        OpenMWConfiguration,
        ConfigError,
    >)
        ensures
            ({
                let pm = match path {
                    Some(p) => Some(p@),
                    None => None::<Seq<char>>,
                };
                match spec_new_config(
                    files@,
                    pm,
                    defaults.user_data@,
                    defaults.user_config@,
                    files@.len(),
                ) {
                    Ok(c) => r is Ok && r->Ok_0@ == c,
                    Err(e) => r is Err && r->Err_0@ == e,
                }
            }),
    {
        let root: String = match path {
            Some(p) => {
                if files.contains(p.as_str()) {
                    p
                } else {
                    let joined = join_path(p.as_str(), "openmw.cfg");
                    if files.contains(joined.as_str()) {
                        joined
                    } else {
                        return Err(ConfigError::CannotFind { config_path: p });
                    }
                }
            },
            None => join_path(defaults.user_config.as_str(), "openmw.cfg"),
        };
        let mut settings: Vec<SettingValue> = Vec::new();
        let fuel = files.files.len();
        proof {
            assert(models(settings@) =~= Seq::<SettingModel>::empty());
            assert(files@.len() == files.files@.len());
        }
        match load_file(&mut settings, files, root.as_str(), defaults, fuel) {
            Ok(_) => {},
            Err(e) => {
                return Err(e);
            },
        }
        let mut config = OpenMWConfiguration { root_config: root, settings };
        let resources_dir: Option<String> = match config.resources() {
            Some(d) => Some(d.parsed.clone()),
            None => None,
        };
        match resources_dir {
            Some(dir) => {
                let ghost before = models(config.settings@);
                let engine_val = join_path(dir.as_str(), "vfs");
                let mut c1 = String::new();
                let engine = DirectorySetting::new_resolved(
                    engine_val.as_str(),
                    config.root_config.as_str(),
                    config.root_config.as_str(),
                    &mut c1,
                    defaults.user_data.as_str(),
                    defaults.user_config.as_str(),
                );
                let mw_val = join_path(dir.as_str(), "vfs-mw");
                let mut c2 = String::new();
                let mw = DirectorySetting::new_resolved(
                    mw_val.as_str(),
                    config.root_config.as_str(),
                    config.root_config.as_str(),
                    &mut c2,
                    defaults.user_data.as_str(),
                    defaults.user_config.as_str(),
                );
                let ghost v1 = config.settings@;
                config.settings.insert(0, SettingValue::DataDirectory(mw));
                proof {
                    lemma_models_insert(v1, 0, config.settings@[0]);
                }
                let ghost v2 = config.settings@;
                config.settings.insert(0, SettingValue::DataDirectory(engine));
                proof {
                    lemma_models_insert(v2, 0, config.settings@[0]);
                    assert(models(config.settings@) =~= seq![
                        models(config.settings@)[0],
                        models(config.settings@)[1],
                    ] + before);
                }
                Ok(config)
            },
            None => Ok(config),
        }
    }

    /// Hands back this configuration if it already is the user one, else
    /// loads the chain anew from the user-configuration directory.
    pub fn user_config(self, files: &FileStore, defaults: &PathDefaults) -> (r: Result<
        OpenMWConfiguration,
        ConfigError,
    >)
        requires
            spec_parent(self@.root) is Some,
        ensures
            ({
                if spec_parent(self@.root)->Some_0 == crate::config::spec_user_config_dir(self@) {
                    r is Ok && r->Ok_0@ == self@
                } else {
                    match spec_new_config(
                        files@,
                        Some(crate::config::spec_user_config_dir(self@)),
                        defaults.user_data@,
                        defaults.user_config@,
                        files@.len(),
                    ) {
                        Ok(c) => r is Ok && r->Ok_0@ == c,
                        Err(e) => r is Err && r->Err_0@ == e,
                    }
                }
            }),
    {
        if self.is_user_config() {
            Ok(self)
        } else {
            let p = self.user_config_path();
            OpenMWConfiguration::new(files, Some(p), defaults)
        }
    }
}


// ---------------------------------------------------------------------------
// Chain discovery for callers that gather the store from disk
// ---------------------------------------------------------------------------

/// The configuration files the `config=` directives of one text point at,
/// in declaration order: each raw value resolved against the file's
/// directory, with the fixed configuration filename below it.
pub open spec fn spec_child_configs(
    lines: Seq<Seq<char>>,
    i: int,
    base: Seq<char>,
    ud: Seq<char>,
    uc: Seq<char>,
) -> Seq<Seq<char>>
    decreases lines.len() - i,
{
    if i < 0 || i >= lines.len() {
        Seq::empty()
    } else {
        let rest = spec_child_configs(lines, i + 1, base, ud, uc);
        let t = spec_trim(lines[i]);
        if t.len() > 0 && t[0] != '#' && spec_find(t, '=') is Some && spec_trim(
            t.subrange(0, spec_find(t, '=')->Some_0),
        ) == "config"@ {
            seq![
                spec_join(
                    spec_resolve(
                        base,
                        spec_trim(
                            t.subrange(spec_find(t, '=')->Some_0 + 1, t.len() as int),
                        ),
                        ud,
                        uc,
                    ),
                    "openmw.cfg"@,
                ),
            ] + rest
        } else {
            rest
        }
    }
}

/// The candidate chain members one file's text references, so that a caller
/// reading from disk knows which further files to hand the loader.  Whether
/// each candidate exists decides whether the reference is followed.
pub fn sub_config_files(text: &str, path: &str, defaults: &PathDefaults) -> (r: Vec<String>)
    ensures
        r.deep_view() == spec_child_configs(
            spec_lines(text@),
            0,
            spec_parent_or_empty(path@),
            defaults.user_data@,
            defaults.user_config@,
        ),
{
    let base: String = match parent_dir(path) {
        Some(d) => d,
        None => String::new(),
    };
    assert(base@ == spec_parent_or_empty(path@));
    let lines = str_lines(text);
    let ghost lns = lines.deep_view();
    let mut out: Vec<String> = Vec::new();
    let n = lines.len();
    let mut i: usize = 0;
    proof {
        assert(out.deep_view() + spec_child_configs(
            lns,
            0,
            base@,
            defaults.user_data@,
            defaults.user_config@,
        ) =~~= spec_child_configs(lns, 0, base@, defaults.user_data@, defaults.user_config@));
    }
    while i < n
        invariant
            n == lines.len(),
            i <= n,
            lns == lines.deep_view(),
            base@ == spec_parent_or_empty(path@),
            out.deep_view() + spec_child_configs(
                lns,
                i as int,
                base@,
                defaults.user_data@,
                defaults.user_config@,
            ) =~~= spec_child_configs(
                lns,
                0,
                base@,
                defaults.user_data@,
                defaults.user_config@,
            ),
        decreases n - i,
    {
        assert(lines@[i as int]@ == lns[i as int]);
        let trimmed = str_trim(lines[i].as_str());
        let tn = trimmed.unicode_len();
        if tn > 0 && trimmed.get_char(0) != '#' {
            match str_find(trimmed, '=') {
                None => {},
                Some(e) => {
                    proof {
                        lemma_spec_find(trimmed@, '=');
                    }
                    let key = str_trim(trimmed.substring_char(0, e));
                    if str_eq(key, "config") {
                        let value = str_trim(trimmed.substring_char(e + 1, tn));
                        let resolved = crate::paths::parse_data_directory(
                            base.as_str(),
                            value,
                            defaults.user_data.as_str(),
                            defaults.user_config.as_str(),
                        );
                        let child = join_path(resolved.as_str(), "openmw.cfg");
                        let ghost o0 = out@;
                        let ghost odv = out.deep_view();
                        out.push(child);
                        proof {
                            let lhs = out.deep_view();
                            let rhs = odv.push(
                                spec_child_configs(
                                    lns,
                                    i as int,
                                    base@,
                                    defaults.user_data@,
                                    defaults.user_config@,
                                )[0],
                            );
                            assert forall|j: int| 0 <= j < lhs.len() implies lhs[j] == rhs[j] by {
                                if j < o0.len() {
                                    assert(out@[j] == o0[j]);
                                }
                            }
                            assert(lhs =~~= rhs);
                        }
                    }
                },
            }
        }
        i += 1;
    }
    proof {
        assert(spec_child_configs(
            lns,
            n as int,
            base@,
            defaults.user_data@,
            defaults.user_config@,
        ) =~~= Seq::<Seq<char>>::empty());
        assert(out.deep_view() + Seq::<Seq<char>>::empty() =~~= out.deep_view());
    }
    out
}

} // verus!


