use vstd::prelude::*;
use crate::config::{spec_serialize_for, spec_lookup};
use crate::error::ErrModel;
use crate::gamesetting::{spec_classify_game_value, spec_game_setting};
use crate::model::{spec_render, spec_game_value_text, spec_encoding_text, MetaModel, DirModel,
    FileModel, EncodingModel, GenericModel, lemma_first_kind_complete,
    lemma_first_kind_none};
use crate::strutil::{spec_trim, spec_find, spec_lines, spec_split, spec_strip_cr,
    lemma_spec_find};
use crate::loader::{LoadState, spec_line_step, spec_apply_directive,
    spec_parse_lines, spec_load_file, spec_load_queue, spec_new_config, spec_post_process,
    spec_input_config_path};
use crate::model::{SettingModel, SettingKind, is_kind, has_file_value, spec_first_file_value,
    spec_remove_kind, spec_first_kind};

verus! {

// ---------------------------------------------------------------------------
// Uniqueness of content, groundcover and archive names across the chain
// ---------------------------------------------------------------------------

pub open spec fn is_file_kind(k: SettingKind) -> bool {
    k == SettingKind::ContentFile || k == SettingKind::BethArchive || k == SettingKind::Groundcover
}

/// The filename a file-valued entry carries (empty for other kinds).
pub open spec fn file_value_of(s: SettingModel) -> Seq<char> {
    match s {
        SettingModel::ContentFile(f) => f.value,
        SettingModel::BethArchive(f) => f.value,
        SettingModel::Groundcover(f) => f.value,
        _ => Seq::empty(),
    }
}

/// No two entries of the file-valued category carry the same name.
pub open spec fn unique_file_values(s: Seq<SettingModel>, k: SettingKind) -> bool {
    forall|i: int, j: int|
        0 <= i < j < s.len() && is_kind(#[trigger] s[i], k) && is_kind(#[trigger] s[j], k)
            ==> file_value_of(s[i]) != file_value_of(s[j])
}

/// Some entry of the category carries exactly this name.
pub open spec fn has_kv(s: Seq<SettingModel>, k: SettingKind, v: Seq<char>) -> bool {
    exists|i: int| 0 <= i < s.len() && has_file_value(#[trigger] s[i], k, v)
}

proof fn lemma_first_file_value_iff(s: Seq<SettingModel>, k: SettingKind, v: Seq<char>)
    ensures
        (spec_first_file_value(s, k, v) is Some) == has_kv(s, k, v),
    decreases s.len(),
{
    if s.len() > 0 && !has_file_value(s[0], k, v) {
        lemma_first_file_value_iff(s.drop_first(), k, v);
        if has_kv(s.drop_first(), k, v) {
            let i = choose|i: int| 0 <= i < s.drop_first().len() && has_file_value(
                #[trigger] s.drop_first()[i],
                k,
                v,
            );
            assert(has_file_value(s[i + 1], k, v));
        }
        if has_kv(s, k, v) {
            let i = choose|i: int| 0 <= i < s.len() && has_file_value(#[trigger] s[i], k, v);
            assert(i > 0);
            assert(has_file_value(s.drop_first()[i - 1], k, v));
        }
    }
}

proof fn lemma_unique_prefix(s: Seq<SettingModel>, k: SettingKind)
    requires
        unique_file_values(s, k),
        s.len() > 0,
    ensures
        unique_file_values(s.drop_last(), k),
{
    assert forall|i: int, j: int|
        0 <= i < j < s.drop_last().len() && is_kind(#[trigger] s.drop_last()[i], k) && is_kind(
            #[trigger] s.drop_last()[j],
            k,
        ) implies file_value_of(s.drop_last()[i]) != file_value_of(s.drop_last()[j]) by {
        assert(s.drop_last()[i] == s[i]);
        assert(s.drop_last()[j] == s[j]);
    }
}

proof fn lemma_unique_push_other(s: Seq<SettingModel>, k: SettingKind, x: SettingModel)
    requires
        unique_file_values(s, k),
        !is_kind(x, k),
    ensures
        unique_file_values(s.push(x), k),
{
    let t = s.push(x);
    assert forall|i: int, j: int|
        0 <= i < j < t.len() && is_kind(#[trigger] t[i], k) && is_kind(#[trigger] t[j], k) implies
        file_value_of(t[i]) != file_value_of(t[j]) by {
        assert(t[i] == s[i]);
        if j < s.len() {
            assert(t[j] == s[j]);
        } else {
            assert(t[j] == x);
        }
    }
}

proof fn lemma_unique_push_file(s: Seq<SettingModel>, k: SettingKind, x: SettingModel)
    requires
        unique_file_values(s, k),
        is_file_kind(k),
        is_kind(x, k),
        !has_kv(s, k, file_value_of(x)),
    ensures
        unique_file_values(s.push(x), k),
{
    let t = s.push(x);
    assert forall|i: int, j: int|
        0 <= i < j < t.len() && is_kind(#[trigger] t[i], k) && is_kind(#[trigger] t[j], k) implies
        file_value_of(t[i]) != file_value_of(t[j]) by {
        assert(t[i] == s[i]);
        if j < s.len() {
            assert(t[j] == s[j]);
        } else {
            assert(t[j] == x);
            if file_value_of(s[i]) == file_value_of(x) {
                assert(has_file_value(s[i], k, file_value_of(x)));
            }
        }
    }
}

proof fn lemma_unique_update_other(s: Seq<SettingModel>, k: SettingKind, i: int, x: SettingModel)
    requires
        unique_file_values(s, k),
        0 <= i < s.len(),
        !is_kind(x, k),
        !is_kind(s[i], k),
    ensures
        unique_file_values(s.update(i, x), k),
{
    let t = s.update(i, x);
    assert forall|a: int, b: int|
        0 <= a < b < t.len() && is_kind(#[trigger] t[a], k) && is_kind(#[trigger] t[b], k) implies
        file_value_of(t[a]) != file_value_of(t[b]) by {
        if a != i {
            assert(t[a] == s[a]);
        }
        if b != i {
            assert(t[b] == s[b]);
        }
    }
}

proof fn lemma_remove_kind_unique(s: Seq<SettingModel>, k2: SettingKind, k: SettingKind)
    requires
        unique_file_values(s, k),
        is_file_kind(k),
    ensures
        unique_file_values(spec_remove_kind(s, k2), k),
        forall|v: Seq<char>| has_kv(spec_remove_kind(s, k2), k, v) ==> has_kv(s, k, v),
    decreases s.len(),
{
    if s.len() == 0 {
    } else {
        lemma_unique_prefix(s, k);
        lemma_remove_kind_unique(s.drop_last(), k2, k);
        let r0 = spec_remove_kind(s.drop_last(), k2);
        assert forall|v: Seq<char>| has_kv(s.drop_last(), k, v) implies has_kv(s, k, v) by {
            let i = choose|i: int| 0 <= i < s.drop_last().len() && has_file_value(
                #[trigger] s.drop_last()[i],
                k,
                v,
            );
            assert(has_file_value(s[i], k, v));
        }
        if !is_kind(s.last(), k2) {
            let x = s.last();
            let r1 = r0.push(x);
            if is_kind(x, k) {
                if has_kv(r0, k, file_value_of(x)) {
                    assert(has_kv(s.drop_last(), k, file_value_of(x)));
                    let i = choose|i: int| 0 <= i < s.drop_last().len() && has_file_value(
                        #[trigger] s.drop_last()[i],
                        k,
                        file_value_of(x),
                    );
                    assert(is_kind(s[i], k) && file_value_of(s[i]) == file_value_of(x));
                    assert(is_kind(s[s.len() - 1], k));
                    assert(false);
                }
                lemma_unique_push_file(r0, k, x);
            } else {
                lemma_unique_push_other(r0, k, x);
            }
            assert forall|v: Seq<char>| has_kv(r1, k, v) implies has_kv(s, k, v) by {
                let i = choose|i: int| 0 <= i < r1.len() && has_file_value(#[trigger] r1[i], k, v);
                if i < r0.len() {
                    assert(has_file_value(r0[i], k, v));
                    assert(has_kv(r0, k, v));
                } else {
                    assert(has_file_value(s[s.len() - 1], k, v));
                }
            }
        }
    }
}

/// One applied line keeps the names of a file-valued category unique.
proof fn lemma_line_step_unique(
    st: LoadState,
    line: Seq<char>,
    path: Seq<char>,
    base: Seq<char>,
    ud: Seq<char>,
    uc: Seq<char>,
    k: SettingKind,
)
    requires
        unique_file_values(st.settings, k),
        is_file_kind(k),
    ensures
        match spec_line_step(st, line, path, base, ud, uc) {
            Ok(st2) => unique_file_values(st2.settings, k),
            Err(_) => true,
        },
{
    let t = crate::strutil::spec_trim(line);
    if t.len() == 0 || t[0] == '#' {
    } else {
        match crate::strutil::spec_find(t, '=') {
            None => {},
            Some(e) => {
                let key = crate::strutil::spec_trim(t.subrange(0, e));
                let value = crate::strutil::spec_trim(t.subrange(e + 1, t.len() as int));
                lemma_apply_directive_unique(st, key, value, path, base, ud, uc, k);
            },
        }
    }
}

proof fn lemma_apply_directive_unique(
    st: LoadState,
    key: Seq<char>,
    value: Seq<char>,
    path: Seq<char>,
    base: Seq<char>,
    ud: Seq<char>,
    uc: Seq<char>,
    k: SettingKind,
)
    requires
        unique_file_values(st.settings, k),
        is_file_kind(k),
    ensures
        match spec_apply_directive(st, key, value, path, base, ud, uc) {
            Ok(st2) => unique_file_values(st2.settings, k),
            Err(_) => true,
        },
{
    let s = st.settings;
    match spec_apply_directive(st, key, value, path, base, ud, uc) {
        Err(_) => {},
        Ok(st2) => {
            if key == "content"@ || key == "groundcover"@ || key == "fallback-archive"@ {
                let fk = if key == "content"@ {
                    SettingKind::ContentFile
                } else if key == "groundcover"@ {
                    SettingKind::Groundcover
                } else {
                    SettingKind::BethArchive
                };
                let x = st2.settings.last();
                assert(st2.settings == s.push(x));
                if fk == k {
                    lemma_first_file_value_iff(s, k, value);
                    assert(!has_kv(s, k, value));
                    assert(is_kind(x, k) && file_value_of(x) == value);
                    lemma_unique_push_file(s, k, x);
                } else {
                    assert(!is_kind(x, k));
                    lemma_unique_push_other(s, k, x);
                }
            } else if key == "fallback"@ {
                lemma_unique_push_other(s, k, st2.settings.last());
            } else if key == "encoding"@ {
                match spec_first_kind(s, SettingKind::Encoding) {
                    Some(i) => {
                        crate::model::lemma_first_kind_complete(s, SettingKind::Encoding);
                        assert(is_kind(s[i], SettingKind::Encoding));
                        lemma_unique_update_other(s, k, i, st2.settings[i]);
                    },
                    None => {
                        lemma_unique_push_other(s, k, st2.settings.last());
                    },
                }
            } else if key == "config"@ {
            } else if key == "data"@ || key == "resources"@ || key == "user-data"@ || key
                == "data-local"@ {
                lemma_unique_push_other(s, k, st2.settings.last());
            } else if key == "replace"@ {
                let t = crate::loader::spec_lower_ascii(value);
                if t == "content"@ || t == "data"@ || t == "fallback"@ || t == "fallback-archives"@
                    || t == "data-local"@ || t == "resources"@ || t == "user-data"@ {
                    if t == "content"@ {
                        lemma_remove_kind_unique(s, SettingKind::ContentFile, k);
                    } else if t == "data"@ {
                        lemma_remove_kind_unique(s, SettingKind::DataDirectory, k);
                    } else if t == "fallback"@ {
                        lemma_remove_kind_unique(s, SettingKind::GameSetting, k);
                    } else if t == "fallback-archives"@ {
                        lemma_remove_kind_unique(s, SettingKind::BethArchive, k);
                    } else if t == "data-local"@ {
                        lemma_remove_kind_unique(s, SettingKind::DataLocal, k);
                    } else if t == "resources"@ {
                        lemma_remove_kind_unique(s, SettingKind::Resources, k);
                    } else {
                        lemma_remove_kind_unique(s, SettingKind::UserData, k);
                    }
                }
            } else {
                lemma_unique_push_other(s, k, st2.settings.last());
            }
        },
    }
}

proof fn lemma_parse_lines_unique(
    st: LoadState,
    lines: Seq<Seq<char>>,
    i: int,
    path: Seq<char>,
    base: Seq<char>,
    ud: Seq<char>,
    uc: Seq<char>,
    k: SettingKind,
)
    requires
        unique_file_values(st.settings, k),
        is_file_kind(k),
    ensures
        match spec_parse_lines(st, lines, i, path, base, ud, uc) {
            Ok(st2) => unique_file_values(st2.settings, k),
            Err(_) => true,
        },
    decreases lines.len() - i,
{
    if i < 0 || i >= lines.len() {
    } else {
        lemma_line_step_unique(st, lines[i], path, base, ud, uc, k);
        match spec_line_step(st, lines[i], path, base, ud, uc) {
            Err(_) => {},
            Ok(st2) => {
                lemma_parse_lines_unique(st2, lines, i + 1, path, base, ud, uc, k);
            },
        }
    }
}

proof fn lemma_load_file_unique(
    files: Seq<(Seq<char>, Seq<char>)>,
    settings: Seq<SettingModel>,
    path: Seq<char>,
    ud: Seq<char>,
    uc: Seq<char>,
    fuel: nat,
    k: SettingKind,
)
    requires
        unique_file_values(settings, k),
        is_file_kind(k),
    ensures
        match spec_load_file(files, settings, path, ud, uc, fuel) {
            Ok(s2) => unique_file_values(s2, k),
            Err(_) => true,
        },
    decreases fuel, 1int, 0int,
{
    match crate::config::spec_lookup(files, path) {
        None => {},
        Some(text) => {
            let base = crate::loader::spec_parent_or_empty(path);
            let st0 = LoadState { settings, queue: Seq::empty(), pending: Seq::empty() };
            lemma_parse_lines_unique(st0, crate::strutil::spec_lines(text), 0, path, base, ud, uc, k);
            match spec_parse_lines(st0, crate::strutil::spec_lines(text), 0, path, base, ud, uc) {
                Err(_) => {},
                Ok(st) => {
                    lemma_load_queue_unique(files, st.settings, st.queue, 0, base, path, ud, uc, fuel, k);
                },
            }
        },
    }
}

proof fn lemma_load_queue_unique(
    files: Seq<(Seq<char>, Seq<char>)>,
    settings: Seq<SettingModel>,
    queue: Seq<(Seq<char>, Seq<char>)>,
    qi: int,
    base: Seq<char>,
    path: Seq<char>,
    ud: Seq<char>,
    uc: Seq<char>,
    fuel: nat,
    k: SettingKind,
)
    requires
        unique_file_values(settings, k),
        is_file_kind(k),
    ensures
        match spec_load_queue(files, settings, queue, qi, base, path, ud, uc, fuel) {
            Ok(s2) => unique_file_values(s2, k),
            Err(_) => true,
        },
    decreases fuel, 0int, queue.len() - qi,
{
    if qi < 0 || qi >= queue.len() {
    } else {
        let value = queue[qi].0;
        let parsed = crate::paths::spec_resolve(base, value, ud, uc);
        let child = crate::paths::spec_join(parsed, "openmw.cfg"@);
        if crate::config::spec_lookup(files, child) is Some {
            if fuel == 0 {
            } else {
                let sub = SettingModel::SubConfiguration(
                    crate::model::DirModel {
                        original: value,
                        parsed,
                        meta: crate::model::MetaModel { source: path, comment: queue[qi].1 },
                    },
                );
                lemma_unique_push_other(settings, k, sub);
                lemma_load_file_unique(files, settings.push(sub), child, ud, uc, (fuel - 1) as nat, k);
                match spec_load_file(files, settings.push(sub), child, ud, uc, (fuel - 1) as nat) {
                    Err(_) => {},
                    Ok(s2) => {
                        lemma_load_queue_unique(files, s2, queue, qi + 1, base, path, ud, uc, fuel, k);
                    },
                }
            }
        } else {
            lemma_load_queue_unique(files, settings, queue, qi + 1, base, path, ud, uc, fuel, k);
        }
    }
}

/// In every successfully loaded chain, the content-file names, the archive
/// names and the groundcover names are each unique across the whole chain:
/// the loader refuses a second occurrence rather than overriding the first.
pub proof fn lemma_loaded_names_unique(
    files: Seq<(Seq<char>, Seq<char>)>,
    path: Option<Seq<char>>,
    ud: Seq<char>,
    uc: Seq<char>,
    fuel: nat,
)
    ensures
        match spec_new_config(files, path, ud, uc, fuel) {
            Ok(c) => unique_file_values(c.settings, SettingKind::ContentFile)
                && unique_file_values(c.settings, SettingKind::BethArchive) && unique_file_values(
                c.settings,
                SettingKind::Groundcover,
            ),
            Err(_) => true,
        },
{
    let rootr = match path {
        Some(p) => spec_input_config_path(files, p),
        None => Ok::<Seq<char>, ErrModel>(crate::paths::spec_join(uc, "openmw.cfg"@)),
    };
    match rootr {
        Err(_) => {},
        Ok(root) => {
            lemma_load_file_unique(files, Seq::empty(), root, ud, uc, fuel, SettingKind::ContentFile);
            lemma_load_file_unique(files, Seq::empty(), root, ud, uc, fuel, SettingKind::BethArchive);
            lemma_load_file_unique(files, Seq::empty(), root, ud, uc, fuel, SettingKind::Groundcover);
            match spec_load_file(files, Seq::empty(), root, ud, uc, fuel) {
                Err(_) => {},
                Ok(settings) => {
                    lemma_post_process_unique(root, settings, ud, uc, SettingKind::ContentFile);
                    lemma_post_process_unique(root, settings, ud, uc, SettingKind::BethArchive);
                    lemma_post_process_unique(root, settings, ud, uc, SettingKind::Groundcover);
                },
            }
        },
    }
}

proof fn lemma_post_process_unique(
    root: Seq<char>,
    settings: Seq<SettingModel>,
    ud: Seq<char>,
    uc: Seq<char>,
    k: SettingKind,
)
    requires
        unique_file_values(settings, k),
        is_file_kind(k),
    ensures
        unique_file_values(spec_post_process(root, settings, ud, uc).settings, k),
{
    match crate::model::spec_last_kind(settings, SettingKind::Resources) {
        None => {},
        Some(_) => {
            let t = spec_post_process(root, settings, ud, uc).settings;
            assert(t.len() == settings.len() + 2);
            assert forall|i: int, j: int|
                0 <= i < j < t.len() && is_kind(#[trigger] t[i], k) && is_kind(
                    #[trigger] t[j],
                    k,
                ) implies file_value_of(t[i]) != file_value_of(t[j]) by {
                assert(!is_kind(t[0], k));
                assert(!is_kind(t[1], k));
                assert(i >= 2 && j >= 2);
                assert(t[i] == settings[i - 2]);
                assert(t[j] == settings[j - 2]);
            }
        },
    }
}


// ---------------------------------------------------------------------------
// Lossless re-serialization of one file
// ---------------------------------------------------------------------------

/// The lines from `i` on, joined back with a newline after each.
pub open spec fn lines_text(lines: Seq<Seq<char>>, i: int) -> Seq<char>
    decreases lines.len() - i,
{
    if i < 0 || i >= lines.len() {
        Seq::empty()
    } else {
        lines[i] + seq!['\n'] + lines_text(lines, i + 1)
    }
}

/// A comment or separator line that survives re-serialization verbatim: a
/// wholly empty line, or one whose first non-blank character is `#`.
pub open spec fn comment_line(line: Seq<char>) -> bool {
    let t = spec_trim(line);
    (t.len() == 0 && line.len() == 0) || (t.len() > 0 && t[0] == '#')
}

/// The key of a directive line (before trimming concerns).
pub open spec fn line_key(line: Seq<char>) -> Seq<char> {
    let t = spec_trim(line);
    match spec_find(t, '=') {
        Some(e) => spec_trim(t.subrange(0, e)),
        None => Seq::empty(),
    }
}

pub open spec fn is_encoding_line(line: Seq<char>) -> bool {
    let t = spec_trim(line);
    t.len() > 0 && t[0] != '#' && line_key(line) == "encoding"@
}

/// A directive line that re-serializes byte for byte: no surrounding
/// whitespace anywhere, not a `replace=` or `config=` directive, and a
/// `fallback=` value whose canonical rendering is its own text.
pub open spec fn directive_line(line: Seq<char>) -> bool {
    let t = spec_trim(line);
    t.len() > 0 && t[0] != '#' && line == t && spec_find(t, '=') is Some && {
        let e = spec_find(t, '=')->Some_0;
        let key = t.subrange(0, e);
        let value = t.subrange(e + 1, t.len() as int);
        &&& spec_trim(key) == key
        &&& spec_trim(value) == value
        &&& key != "replace"@
        &&& key != "config"@
        &&& (key == "fallback"@ ==> spec_find(value, ',') is Some && {
            let c = spec_find(value, ',')->Some_0;
            spec_game_value_text(
                spec_classify_game_value(value.subrange(c + 1, value.len() as int)),
            ) == value.subrange(c + 1, value.len() as int)
        })
    }
}

pub open spec fn round_trip_line(line: Seq<char>) -> bool {
    comment_line(line) || directive_line(line)
}

/// Text that the loader reads and the serializer reproduces byte for byte:
/// newline-terminated, carriage-return free, every line either a faithful
/// comment line or a faithful directive line, at most one `encoding=` line,
/// and ending on a directive (a trailing comment block belongs to no
/// directive and would be dropped).
pub open spec fn round_trippable_text(text: Seq<char>) -> bool {
    let lines = spec_lines(text);
    &&& forall|k: int| 0 <= k < text.len() ==> text[k] != '\r'
    &&& (text.len() > 0 ==> text.last() == '\n')
    &&& forall|j: int| 0 <= j < lines.len() ==> round_trip_line(#[trigger] lines[j])
    &&& forall|j1: int, j2: int|
        0 <= j1 < j2 < lines.len() ==> !(is_encoding_line(#[trigger] lines[j1])
            && is_encoding_line(#[trigger] lines[j2]))
    &&& (lines.len() > 0 ==> directive_line(lines[lines.len() - 1]))
}

proof fn lemma_serialize_push(s: Seq<SettingModel>, x: SettingModel, path: Seq<char>)
    ensures
        spec_serialize_for(s.push(x), path) == spec_serialize_for(s, path) + (if x.meta().source
            == path {
            spec_render(x)
        } else {
            Seq::empty()
        }),
{
    assert(s.push(x).drop_last() =~= s);
    assert(s.push(x).last() == x);
}

proof fn lemma_line_decompose(t: Seq<char>, e: int)
    requires
        spec_find(t, '=') == Some(e),
    ensures
        0 <= e < t.len(),
        t =~= t.subrange(0, e) + seq!['='] + t.subrange(e + 1, t.len() as int),
{
    lemma_spec_find(t, '=');
}

proof fn lemma_push_keeps_no_encoding(s: Seq<SettingModel>, x: SettingModel)
    requires
        spec_first_kind(s, SettingKind::Encoding) is None,
        !is_kind(x, SettingKind::Encoding),
    ensures
        spec_first_kind(s.push(x), SettingKind::Encoding) is None,
{
    lemma_first_kind_complete(s, SettingKind::Encoding);
    assert forall|j: int| 0 <= j < s.push(x).len() implies !is_kind(
        #[trigger] s.push(x)[j],
        SettingKind::Encoding,
    ) by {
        if j < s.len() {
            assert(s.push(x)[j] == s[j]);
        } else {
            assert(s.push(x)[j] == x);
        }
    }
    lemma_first_kind_none(s.push(x), SettingKind::Encoding);
}

#[verifier::rlimit(60)]
proof fn lemma_parse_serialize(
    st: LoadState,
    lines: Seq<Seq<char>>,
    i: int,
    path: Seq<char>,
    base: Seq<char>,
    ud: Seq<char>,
    uc: Seq<char>,
)
    requires
        0 <= i,
        forall|j: int| i <= j < lines.len() ==> round_trip_line(#[trigger] lines[j]),
        forall|j1: int, j2: int|
            i <= j1 < j2 < lines.len() ==> !(is_encoding_line(#[trigger] lines[j1])
                && is_encoding_line(#[trigger] lines[j2])),
        forall|j: int|
            i <= j < lines.len() && is_encoding_line(#[trigger] lines[j]) ==> spec_first_kind(
                st.settings,
                SettingKind::Encoding,
            ) is None,
    ensures
        match spec_parse_lines(st, lines, i, path, base, ud, uc) {
            Ok(st2) => {
                &&& spec_serialize_for(st2.settings, path) + st2.pending == spec_serialize_for(
                    st.settings,
                    path,
                ) + st.pending + lines_text(lines, i)
                &&& st2.queue == st.queue
                &&& (i < lines.len() && directive_line(lines[lines.len() - 1]) ==> st2.pending
                    == Seq::<char>::empty())
            },
            Err(_) => true,
        },
    decreases lines.len() - i,
{
    if i < 0 || i >= lines.len() {
        assert(lines_text(lines, i) =~= Seq::<char>::empty());
        assert(spec_serialize_for(st.settings, path) + st.pending + Seq::<char>::empty()
            =~= spec_serialize_for(st.settings, path) + st.pending);
    } else {
        let line = lines[i];
        let t = spec_trim(line);
        assert(round_trip_line(line));
        reveal_strlit("\n");
        if comment_line(line) {
            let st1 = if t.len() == 0 {
                LoadState { settings: st.settings, queue: st.queue, pending: st.pending.push('\n') }
            } else {
                LoadState {
                    settings: st.settings,
                    queue: st.queue,
                    pending: st.pending + line + "\n"@,
                }
            };
            assert(spec_line_step(st, line, path, base, ud, uc) == Ok::<LoadState, ErrModel>(st1));
            assert(st1.pending =~= st.pending + line + seq!['\n']);
            lemma_parse_serialize(st1, lines, i + 1, path, base, ud, uc);
            match spec_parse_lines(st1, lines, i + 1, path, base, ud, uc) {
                Err(_) => {},
                Ok(st2) => {
                    assert(spec_serialize_for(st2.settings, path) + st2.pending
                        =~= spec_serialize_for(st.settings, path) + st.pending + lines_text(
                        lines,
                        i,
                    ));
                    if i < lines.len() && directive_line(lines[lines.len() - 1]) {
                        assert(i + 1 < lines.len()) by {
                            if i + 1 == lines.len() {
                                assert(directive_line(line));
                                assert(!comment_line(line));
                            }
                        }
                        assert(st2.pending == Seq::<char>::empty());
                    }
                },
            }
        } else {
            assert(directive_line(line));
            let e = spec_find(t, '=')->Some_0;
            lemma_line_decompose(t, e);
            let key = t.subrange(0, e);
            let value = t.subrange(e + 1, t.len() as int);
            assert(spec_trim(key) == key && spec_trim(value) == value);
            let step = spec_apply_directive(st, key, value, path, base, ud, uc);
            assert(spec_line_step(st, line, path, base, ud, uc) == step);
            match step {
                Err(_) => {},
                Ok(st1) => {
                    lemma_directive_serialize(st, key, value, line, path, base, ud, uc);
                    assert(st1.queue == st.queue);
                    assert(st1.pending =~= Seq::<char>::empty());
                    assert(spec_serialize_for(st1.settings, path) == spec_serialize_for(
                        st.settings,
                        path,
                    ) + st.pending + line + seq!['\n']);
                    if is_encoding_line(line) {
                        assert forall|j: int|
                            i + 1 <= j < lines.len() && is_encoding_line(
                                #[trigger] lines[j],
                            ) implies spec_first_kind(st1.settings, SettingKind::Encoding)
                            is None by {
                            assert(!(is_encoding_line(lines[i]) && is_encoding_line(lines[j])));
                        }
                    } else {
                        assert forall|j: int|
                            i + 1 <= j < lines.len() && is_encoding_line(
                                #[trigger] lines[j],
                            ) implies spec_first_kind(st1.settings, SettingKind::Encoding)
                            is None by {
                            assert(spec_first_kind(st.settings, SettingKind::Encoding) is None);
                            lemma_directive_not_encoding(st, key, value, path, base, ud, uc, line);
                        }
                    }
                    lemma_parse_serialize(st1, lines, i + 1, path, base, ud, uc);
                    match spec_parse_lines(st1, lines, i + 1, path, base, ud, uc) {
                        Err(_) => {},
                        Ok(st2) => {
                            assert(spec_serialize_for(st2.settings, path) + st2.pending
                                =~= spec_serialize_for(st.settings, path) + st.pending
                                + lines_text(lines, i));
                            if i < lines.len() && directive_line(lines[lines.len() - 1]) {
                                if i + 1 >= lines.len() {
                                    assert(st2 == st1);
                                    assert(st2.pending == Seq::<char>::empty());
                                } else {
                                    assert(st2.pending == Seq::<char>::empty());
                                }
                            }
                        },
                    }
                },
            }
        }
    }
}

/// A faithful directive line, applied, appends exactly one setting owned by
/// `path` whose rendering is the pending comment, the line, and a newline;
/// the pending buffer is cleared and the queue untouched.
#[verifier::rlimit(100)]
proof fn lemma_directive_serialize(
    st: LoadState,
    key: Seq<char>,
    value: Seq<char>,
    line: Seq<char>,
    path: Seq<char>,
    base: Seq<char>,
    ud: Seq<char>,
    uc: Seq<char>,
)
    requires
        spec_apply_directive(st, key, value, path, base, ud, uc) is Ok,
        key != "replace"@,
        key != "config"@,
        line =~= key + seq!['='] + value,
        key == "fallback"@ ==> spec_find(value, ',') is Some && {
            let c = spec_find(value, ',')->Some_0;
            spec_game_value_text(
                spec_classify_game_value(value.subrange(c + 1, value.len() as int)),
            ) == value.subrange(c + 1, value.len() as int)
        },
        key == "encoding"@ ==> spec_first_kind(st.settings, SettingKind::Encoding) is None,
    ensures
        ({
            let st1 = spec_apply_directive(st, key, value, path, base, ud, uc)->Ok_0;
            &&& st1.queue == st.queue
            &&& st1.pending == Seq::<char>::empty()
            &&& spec_serialize_for(st1.settings, path) == spec_serialize_for(st.settings, path)
                + st.pending + line + seq!['\n']
        }),
{
    let st1 = spec_apply_directive(st, key, value, path, base, ud, uc)->Ok_0;
    reveal_strlit("\n");
    if key == "content"@ {
        let x = SettingModel::ContentFile(
            FileModel { value, meta: MetaModel { source: path, comment: st.pending } },
        );
        assert(st1.settings == st.settings.push(x));
        lemma_serialize_push(st.settings, x, path);
        assert(spec_render(x) =~= st.pending + line + seq!['\n']) by {
            reveal_strlit("content=");
            reveal_strlit("content");
        }
        assert(spec_serialize_for(st1.settings, path) =~= spec_serialize_for(st.settings, path)
            + st.pending + line + seq!['\n']);
    } else if key == "groundcover"@ {
        let x = SettingModel::Groundcover(
            FileModel { value, meta: MetaModel { source: path, comment: st.pending } },
        );
        assert(st1.settings == st.settings.push(x));
        lemma_serialize_push(st.settings, x, path);
        assert(spec_render(x) =~= st.pending + line + seq!['\n']) by {
            reveal_strlit("groundcover=");
            reveal_strlit("groundcover");
        }
        assert(spec_serialize_for(st1.settings, path) =~= spec_serialize_for(st.settings, path)
            + st.pending + line + seq!['\n']);
    } else if key == "fallback-archive"@ {
        let x = SettingModel::BethArchive(
            FileModel { value, meta: MetaModel { source: path, comment: st.pending } },
        );
        assert(st1.settings == st.settings.push(x));
        lemma_serialize_push(st.settings, x, path);
        assert(spec_render(x) =~= st.pending + line + seq!['\n']) by {
            reveal_strlit("fallback-archive=");
            reveal_strlit("fallback-archive");
        }
        assert(spec_serialize_for(st1.settings, path) =~= spec_serialize_for(st.settings, path)
            + st.pending + line + seq!['\n']);
    } else if key == "fallback"@ {
        let g = spec_game_setting(value, path, st.pending);
        let x = SettingModel::GameSetting(g);
        assert(st1.settings == st.settings.push(x));
        lemma_serialize_push(st.settings, x, path);
        let c = spec_find(value, ',')->Some_0;
        lemma_spec_find(value, ',');
        assert(value =~= value.subrange(0, c) + seq![','] + value.subrange(
            c + 1,
            value.len() as int,
        ));
        assert(spec_render(x) =~= st.pending + line + seq!['\n']) by {
            reveal_strlit("fallback=");
            reveal_strlit("fallback");
            reveal_strlit(",");
            assert(g.key == value.subrange(0, c));
            assert(spec_game_value_text(g.value) == value.subrange(c + 1, value.len() as int));
        }
        assert(spec_serialize_for(st1.settings, path) =~= spec_serialize_for(st.settings, path)
            + st.pending + line + seq!['\n']);
    } else if key == "encoding"@ {
        let enc = crate::encodingsetting::spec_parse_encoding(value)->Some_0;
        let x = SettingModel::Encoding(
            EncodingModel { encoding: enc, meta: MetaModel { source: path, comment: st.pending } },
        );
        assert(st1.settings == st.settings.push(x));
        lemma_serialize_push(st.settings, x, path);
        assert(spec_encoding_text(enc) == value) by {
            reveal_strlit("win1250");
            reveal_strlit("win1251");
            reveal_strlit("win1252");
        }
        assert(spec_render(x) =~= st.pending + line + seq!['\n']) by {
            reveal_strlit("encoding=");
            reveal_strlit("encoding");
        }
        assert(spec_serialize_for(st1.settings, path) =~= spec_serialize_for(st.settings, path)
            + st.pending + line + seq!['\n']);
    } else if key == "data"@ {
        let x = SettingModel::DataDirectory(
            DirModel {
                original: value,
                parsed: crate::paths::spec_resolve(base, value, ud, uc),
                meta: MetaModel { source: path, comment: st.pending },
            },
        );
        assert(st1.settings == st.settings.push(x));
        lemma_serialize_push(st.settings, x, path);
        assert(spec_render(x) =~= st.pending + line + seq!['\n']) by {
            reveal_strlit("data=");
            reveal_strlit("data");
        }
        assert(spec_serialize_for(st1.settings, path) =~= spec_serialize_for(st.settings, path)
            + st.pending + line + seq!['\n']);
    } else if key == "resources"@ {
        let x = SettingModel::Resources(
            DirModel {
                original: value,
                parsed: crate::paths::spec_resolve(base, value, ud, uc),
                meta: MetaModel { source: path, comment: st.pending },
            },
        );
        assert(st1.settings == st.settings.push(x));
        lemma_serialize_push(st.settings, x, path);
        assert(spec_render(x) =~= st.pending + line + seq!['\n']) by {
            reveal_strlit("resources=");
            reveal_strlit("resources");
        }
        assert(spec_serialize_for(st1.settings, path) =~= spec_serialize_for(st.settings, path)
            + st.pending + line + seq!['\n']);
    } else if key == "user-data"@ {
        let x = SettingModel::UserData(
            DirModel {
                original: value,
                parsed: crate::paths::spec_resolve(base, value, ud, uc),
                meta: MetaModel { source: path, comment: st.pending },
            },
        );
        assert(st1.settings == st.settings.push(x));
        lemma_serialize_push(st.settings, x, path);
        assert(spec_render(x) =~= st.pending + line + seq!['\n']) by {
            reveal_strlit("user-data=");
            reveal_strlit("user-data");
        }
        assert(spec_serialize_for(st1.settings, path) =~= spec_serialize_for(st.settings, path)
            + st.pending + line + seq!['\n']);
    } else if key == "data-local"@ {
        let x = SettingModel::DataLocal(
            DirModel {
                original: value,
                parsed: crate::paths::spec_resolve(base, value, ud, uc),
                meta: MetaModel { source: path, comment: st.pending },
            },
        );
        assert(st1.settings == st.settings.push(x));
        lemma_serialize_push(st.settings, x, path);
        assert(spec_render(x) =~= st.pending + line + seq!['\n']) by {
            reveal_strlit("data-local=");
            reveal_strlit("data-local");
        }
        assert(spec_serialize_for(st1.settings, path) =~= spec_serialize_for(st.settings, path)
            + st.pending + line + seq!['\n']);
    } else {
        let x = SettingModel::Generic(
            GenericModel { key, value, meta: MetaModel { source: path, comment: st.pending } },
        );
        assert(st1.settings == st.settings.push(x));
        lemma_serialize_push(st.settings, x, path);
        assert(spec_render(x) =~= st.pending + line + seq!['\n']) by {
            reveal_strlit("=");
        }
        assert(spec_serialize_for(st1.settings, path) =~= spec_serialize_for(st.settings, path)
            + st.pending + line + seq!['\n']);
    }
}

/// Applying a non-`encoding` directive line never introduces an encoding
/// entry.
proof fn lemma_directive_not_encoding(
    st: LoadState,
    key: Seq<char>,
    value: Seq<char>,
    path: Seq<char>,
    base: Seq<char>,
    ud: Seq<char>,
    uc: Seq<char>,
    line: Seq<char>,
)
    requires
        spec_apply_directive(st, key, value, path, base, ud, uc) is Ok,
        key != "encoding"@,
        key != "replace"@,
        key != "config"@,
        spec_first_kind(st.settings, SettingKind::Encoding) is None,
    ensures
        spec_first_kind(
            spec_apply_directive(st, key, value, path, base, ud, uc)->Ok_0.settings,
            SettingKind::Encoding,
        ) is None,
{
    let st1 = spec_apply_directive(st, key, value, path, base, ud, uc)->Ok_0;
    if key == "content"@ || key == "groundcover"@ || key == "fallback-archive"@ || key
        == "fallback"@ || key == "data"@ || key == "resources"@ || key == "user-data"@ || key
        == "data-local"@ {
        assert(st1.settings == st.settings.push(st1.settings.last()));
        assert(!is_kind(st1.settings.last(), SettingKind::Encoding));
        lemma_push_keeps_no_encoding(st.settings, st1.settings.last());
    } else {
        assert(st1.settings == st.settings.push(st1.settings.last()));
        assert(!is_kind(st1.settings.last(), SettingKind::Encoding));
        lemma_push_keeps_no_encoding(st.settings, st1.settings.last());
    }
}


proof fn lemma_lines_text_shift(ls: Seq<Seq<char>>, h: Seq<char>, i: int)
    requires
        0 <= i,
    ensures
        lines_text(seq![h] + ls, i + 1) == lines_text(ls, i),
    decreases ls.len() - i,
{
    let cons = seq![h] + ls;
    if i >= ls.len() {
        assert(lines_text(cons, i + 1) =~= Seq::<char>::empty());
    } else {
        assert(cons[i + 1] == ls[i]);
        lemma_lines_text_shift(ls, h, i + 1);
    }
}

proof fn lemma_lines_cons(text: Seq<char>)
    requires
        text.len() > 0,
        text.last() == '\n',
        forall|k: int| 0 <= k < text.len() ==> text[k] != '\r',
    ensures
        spec_find(text, '\n') is Some,
        ({
            let f = spec_find(text, '\n')->Some_0;
            spec_lines(text) == seq![text.subrange(0, f)] + spec_lines(
                text.subrange(f + 1, text.len() as int),
            )
        }),
{
    lemma_spec_find(text, '\n');
    if spec_find(text, '\n') is None {
        assert(text[text.len() - 1] != '\n');
    }
    let f = spec_find(text, '\n')->Some_0;
    let head = text.subrange(0, f);
    let tail = text.subrange(f + 1, text.len() as int);
    assert(spec_split(text, '\n') == seq![head] + spec_split(tail, '\n'));
    assert(spec_strip_cr(head) == head) by {
        if head.len() > 0 && head.last() == '\r' {
            assert(text[f - 1] == '\r');
        }
    }
    let parts = spec_split(text, '\n');
    if tail.len() == 0 {
        assert(parts =~~= seq![head, Seq::<char>::empty()]);
        assert(parts.last().len() == 0);
        assert(parts.drop_last() =~~= seq![head]);
        assert(spec_lines(text) =~~= seq![head]);
        assert(spec_lines(tail) =~~= Seq::<Seq<char>>::empty());
        assert(spec_lines(text) =~~= seq![head] + spec_lines(tail));
    } else {
        let pt = spec_split(tail, '\n');
        assert(pt.len() >= 1);
        assert(parts.last() == pt.last());
        let kept = if parts.last().len() == 0 {
            parts.drop_last()
        } else {
            parts
        };
        let kept_t = if pt.last().len() == 0 {
            pt.drop_last()
        } else {
            pt
        };
        assert(kept =~~= seq![head] + kept_t);
        let mapped = kept.map_values(|l: Seq<char>| spec_strip_cr(l));
        let mapped_t = kept_t.map_values(|l: Seq<char>| spec_strip_cr(l));
        assert forall|j: int| 0 <= j < mapped.len() implies mapped[j] == (seq![head]
            + mapped_t)[j] by {
            if j == 0 {
                assert(kept[0] == head);
            } else {
                assert(kept[j] == kept_t[j - 1]);
            }
        }
        assert(mapped =~~= seq![head] + mapped_t);
        assert(spec_lines(text) == mapped);
        assert(spec_lines(tail) == mapped_t);
    }
}

proof fn lemma_lines_reconstruct(text: Seq<char>)
    requires
        forall|k: int| 0 <= k < text.len() ==> text[k] != '\r',
        text.len() > 0 ==> text.last() == '\n',
    ensures
        lines_text(spec_lines(text), 0) == text,
    decreases text.len(),
{
    if text.len() == 0 {
        assert(spec_lines(text) =~~= Seq::<Seq<char>>::empty());
        assert(lines_text(spec_lines(text), 0) =~= text);
    } else {
        lemma_lines_cons(text);
        let f = spec_find(text, '\n')->Some_0;
        lemma_spec_find(text, '\n');
        let head = text.subrange(0, f);
        let tail = text.subrange(f + 1, text.len() as int);
        assert(forall|k: int| 0 <= k < tail.len() ==> tail[k] != '\r') by {
            assert(forall|k: int| 0 <= k < tail.len() ==> tail[k] == text[k + f + 1]);
        }
        if tail.len() > 0 {
            assert(tail.last() == text.last());
        }
        lemma_lines_reconstruct(tail);
        let ls = spec_lines(tail);
        assert(spec_lines(text) == seq![head] + ls);
        assert(lines_text(seq![head] + ls, 0) == head + seq!['\n'] + lines_text(ls, 1 - 1)) by {
            assert((seq![head] + ls)[0] == head);
            lemma_lines_text_shift(ls, head, 0);
        }
        assert(head + seq!['\n'] + tail =~= text);
    }
}

proof fn lemma_serialize_absent(s: Seq<SettingModel>, path: Seq<char>)
    requires
        forall|j: int| 0 <= j < s.len() ==> (#[trigger] s[j]).meta().source != path,
    ensures
        spec_serialize_for(s, path) == Seq::<char>::empty(),
    decreases s.len(),
{
    if s.len() > 0 {
        assert forall|j: int| 0 <= j < s.drop_last().len() implies (
        #[trigger] s.drop_last()[j]).meta().source != path by {
            assert(s.drop_last()[j] == s[j]);
        }
        lemma_serialize_absent(s.drop_last(), path);
        assert(s.last().meta().source != path);
        assert(spec_serialize_for(s, path) =~= Seq::<char>::empty());
    }
}

/// Loading a faithful file and serializing its settings back gives the
/// original text, byte for byte.  `acc` is whatever the chain had loaded
/// before this file; the file itself holds no `config=` or `replace=`
/// directives, its lines carry no surrounding whitespace, `fallback=`
/// values are in canonical form, at most one `encoding=` line stands and
/// no earlier file set one, and the text ends on a directive line.
pub proof fn lemma_file_round_trip(
    files: Seq<(Seq<char>, Seq<char>)>,
    acc: Seq<SettingModel>,
    path: Seq<char>,
    ud: Seq<char>,
    uc: Seq<char>,
    fuel: nat,
)
    requires
        spec_lookup(files, path) is Some,
        round_trippable_text(spec_lookup(files, path)->Some_0),
        forall|j: int| 0 <= j < acc.len() ==> (#[trigger] acc[j]).meta().source != path,
        spec_first_kind(acc, SettingKind::Encoding) is None,
    ensures
        match spec_load_file(files, acc, path, ud, uc, fuel) {
            Ok(res) => spec_serialize_for(res, path) == spec_lookup(files, path)->Some_0,
            Err(_) => true,
        },
{
    let text = spec_lookup(files, path)->Some_0;
    let base = crate::loader::spec_parent_or_empty(path);
    let lines = spec_lines(text);
    let st0 = LoadState { settings: acc, queue: Seq::empty(), pending: Seq::empty() };
    lemma_parse_serialize(st0, lines, 0, path, base, ud, uc);
    match spec_parse_lines(st0, lines, 0, path, base, ud, uc) {
        Err(_) => {},
        Ok(st2) => {
            assert(st2.queue =~= Seq::<(Seq<char>, Seq<char>)>::empty());
            assert(spec_load_queue(files, st2.settings, st2.queue, 0, base, path, ud, uc, fuel)
                == Ok::<Seq<SettingModel>, ErrModel>(st2.settings));
            lemma_serialize_absent(acc, path);
            lemma_lines_reconstruct(text);
            if lines.len() > 0 {
                assert(st2.pending == Seq::<char>::empty());
            } else {
                assert(st2 == st0);
            }
            assert(spec_serialize_for(st2.settings, path) =~= spec_serialize_for(
                st2.settings,
                path,
            ) + st2.pending);
            assert(spec_serialize_for(st2.settings, path) =~= text);
        },
    }
}


// ---------------------------------------------------------------------------
// Replace semantics and traversal order
// ---------------------------------------------------------------------------

/// Discarding a category leaves nothing of that category behind; entries
/// appended after the discard are untouched, because the step applies only
/// to the settings accumulated up to it.
pub proof fn lemma_remove_kind_clears(s: Seq<SettingModel>, k: SettingKind)
    ensures
        forall|j: int| 0 <= j < spec_remove_kind(s, k).len() ==> !is_kind(
            #[trigger] spec_remove_kind(s, k)[j],
            k,
        ),
    decreases s.len(),
{
    if s.len() > 0 {
        lemma_remove_kind_clears(s.drop_last(), k);
        let r0 = spec_remove_kind(s.drop_last(), k);
        if !is_kind(s.last(), k) {
            assert forall|j: int| 0 <= j < r0.push(s.last()).len() implies !is_kind(
                #[trigger] r0.push(s.last())[j],
                k,
            ) by {
                if j < r0.len() {
                    assert(r0.push(s.last())[j] == r0[j]);
                } else {
                    assert(r0.push(s.last())[j] == s.last());
                }
            }
        }
    }
}

/// Sub-configuration references are processed depth-first in declaration
/// order: the whole chain below the reference at `qi` is loaded, onto the
/// settings gathered so far, before the reference at `qi + 1` is looked at.
pub proof fn lemma_traversal_order(
    files: Seq<(Seq<char>, Seq<char>)>,
    settings: Seq<SettingModel>,
    queue: Seq<(Seq<char>, Seq<char>)>,
    qi: int,
    base: Seq<char>,
    path: Seq<char>,
    ud: Seq<char>,
    uc: Seq<char>,
    fuel: nat,
)
    requires
        0 <= qi < queue.len(),
        fuel > 0,
        spec_lookup(
            files,
            crate::paths::spec_join(
                crate::paths::spec_resolve(base, queue[qi].0, ud, uc),
                "openmw.cfg"@,
            ),
        ) is Some,
    ensures
        ({
            let parsed = crate::paths::spec_resolve(base, queue[qi].0, ud, uc);
            let child = crate::paths::spec_join(parsed, "openmw.cfg"@);
            let sub = SettingModel::SubConfiguration(
                DirModel {
                    original: queue[qi].0,
                    parsed,
                    meta: MetaModel { source: path, comment: queue[qi].1 },
                },
            );
            spec_load_queue(files, settings, queue, qi, base, path, ud, uc, fuel) == match
                spec_load_file(files, settings.push(sub), child, ud, uc, (fuel - 1) as nat) {
                Ok(s2) => spec_load_queue(files, s2, queue, qi + 1, base, path, ud, uc, fuel),
                Err(e) => Err(e),
            }
        }),
{
}

} // verus!



