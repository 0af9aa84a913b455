//! Which models there are: those that the server lists, and those in the local
//! Hugging Face cache.
use vstd::prelude::*;
use vstd::slice::slice_subrange;

use crate::json::{
    json_error, json_error_text, json_u64_member, parsed_json, u64_member, value_from_str,
    JsonError,
};
use crate::replace_lines_tool::opt_view;
use crate::search::{
    ends_with, ends_with_text, replace_chars, replaced, standing_is_being_a_part, starts_with,
    starts_with_text, what_stands_is_a_part,
};
use crate::text::{chars_of, string_of};

verus! {

/// The size of the context window where nothing tells it.
pub const DEFAULT_MAX_TOKENS: u64 = 32768;

/// A model that can be asked.
#[derive(Debug)]
pub struct ModelInfo {
    pub id: String,
    pub display_name: String,
    pub max_tokens: u64,
    pub supports_tools: bool,
    pub supports_images: bool,
    /// The directory that holds the model, if it is known.
    pub local_path: Option<String>,
}

/// What a [`ModelInfo`] holds.
pub struct ModelInfoView {
    pub id: Seq<char>,
    pub display_name: Seq<char>,
    pub max_tokens: u64,
    pub supports_tools: bool,
    pub supports_images: bool,
    pub local_path: Option<Seq<char>>,
}

impl View for ModelInfo {
    type V = ModelInfoView;

    open spec fn view(&self) -> ModelInfoView {
        ModelInfoView {
            id: self.id@,
            display_name: self.display_name@,
            max_tokens: self.max_tokens,
            supports_tools: self.supports_tools,
            supports_images: self.supports_images,
            local_path: opt_view(self.local_path),
        }
    }
}

impl Clone for ModelInfo {
    fn clone(&self) -> (copy: Self)
        ensures
            copy@ == self@,
    {
        ModelInfo {
            id: self.id.clone(),
            display_name: self.display_name.clone(),
            max_tokens: self.max_tokens,
            supports_tools: self.supports_tools,
            supports_images: self.supports_images,
            local_path: match &self.local_path {
                Some(path) => Some(path.clone()),
                None => None,
            },
        }
    }
}

/// What a sequence of models holds.
pub open spec fn model_views(models: Seq<ModelInfo>) -> Seq<ModelInfoView> {
    models.map_values(|model: ModelInfo| model@)
}

/// What stands behind the last slash of `id`; all of it where there is none.
pub open spec fn name_part(id: Seq<char>) -> Seq<char>
    decreases id.len(),
{
    if id.len() == 0 || id.last() == '/' {
        Seq::empty()
    } else {
        name_part(id.drop_last()).push(id.last())
    }
}

/// The name of a model is how its identifier ends, from the last slash on.
pub proof fn name_part_is_what_follows_the_last_slash(id: Seq<char>)
    ensures
        ({
            let cut = id.len() - name_part(id).len();
            &&& 0 <= cut
            &&& name_part(id) == id.skip(cut)
            &&& !name_part(id).contains('/')
            &&& cut > 0 ==> id[cut - 1] == '/'
        }),
    decreases id.len(),
{
    if id.len() > 0 && id.last() != '/' {
        let shorter = id.drop_last();
        name_part_is_what_follows_the_last_slash(shorter);
        let cut = id.len() - name_part(id).len();
        assert(name_part(id) =~= id.skip(cut));
        assert forall|i: int| 0 <= i < name_part(id).len() implies name_part(id)[i] != '/' by {
            if i < name_part(shorter).len() {
                assert(name_part(shorter)[i] != '/') by {
                    if name_part(shorter)[i] == '/' {
                        assert(name_part(shorter).contains('/'));
                    }
                }
            }
        }
        if cut > 0 {
            assert(shorter[cut - 1] == id[cut - 1]);
        }
    } else {
        assert(name_part(id) =~= id.skip(id.len() as int));
    }
}

/// The name to show for the model `id`.
pub fn display_name(id: &str) -> (name: String)
    ensures
        name@ == name_part(id@),
{
    let chars = chars_of(id);
    let mut start: usize = chars.len();
    assert(id@.take(start as int) =~= id@);
    assert(id@.skip(start as int) =~= Seq::empty());
    while start > 0 && chars[start - 1] != '/'
        invariant
            start <= chars@.len(),
            chars@ == id@,
            name_part(id@) == name_part(id@.take(start as int)) + id@.skip(start as int),
        decreases start,
    {
        proof {
            let before = id@.take(start as int);
            assert(before.last() == id@[start - 1]);
            assert(before.drop_last() =~= id@.take(start - 1));
            assert(name_part(before) + id@.skip(start as int) =~= name_part(before.drop_last())
                + id@.skip(start - 1));
        }
        start -= 1;
    }
    let rest = slice_subrange(&chars, start, chars.len());
    proof {
        if start > 0 {
            assert(id@.take(start as int).last() == id@[start - 1]);
        }
        assert(name_part(id@.take(start as int)) =~= Seq::empty());
        assert(rest@ =~= name_part(id@));
    }
    string_of(rest)
}

/// Where the server lists its models.
pub open spec fn models_address(api_base: Seq<char>) -> Seq<char> {
    api_base + "/v1/models"@
}

/// Where the server lists its models.
pub fn models_url(api_base: &str) -> (url: String)
    ensures
        url@ == models_address(api_base@),
{
    let mut url = api_base.to_owned();
    url.append("/v1/models");
    url
}

/// Whether an HTTP status tells of success.
pub open spec fn is_success(code: u16) -> bool {
    200 <= code < 300
}

/// Why the models could not be listed.
pub open spec fn list_error(status: Seq<char>, body: Seq<char>) -> Seq<char> {
    "Failed to list models: HTTP "@ + status + " - "@ + body
}

/// The model that the server lists under `id`.
pub open spec fn listed_model(id: Seq<char>) -> ModelInfoView {
    ModelInfoView {
        id,
        display_name: name_part(id),
        max_tokens: DEFAULT_MAX_TOKENS,
        supports_tools: true,
        supports_images: false,
        local_path: None,
    }
}

/// The models in the server's reply, which had the status `code`, shown as
/// `status`, and the body `body`, in which `listed` are the identifiers, if it
/// could be parsed.
pub fn discover_models_via_api(
    code: u16,
    status: &str,
    body: &str,
    listed: Option<Vec<String>>,
) -> (models: Result<Vec<ModelInfo>, String>)
    ensures
        match models {
            Ok(models) => {
                &&& is_success(code)
                &&& listed is Some
                &&& model_views(models@) == listed->0@.map_values(
                    |id: String| listed_model(id@),
                )
            },
            Err(error) => if !is_success(code) {
                error@ == list_error(status@, body@)
            } else {
                listed is None && error@ == "Failed to parse /v1/models response"@
            },
        },
{
    if !(200 <= code && code < 300) {
        let mut error = "Failed to list models: HTTP ".to_owned();
        error.append(status);
        error.append(" - ");
        error.append(body);
        return Err(error);
    }
    match listed {
        Some(ids) => {
            let ghost all = ids@;
            let mut models: Vec<ModelInfo> = Vec::new();
            for id in it: ids.into_iter()
                invariant
                    it.seq() == all,
                    models@.len() == it.index(),
                    forall|i: int|
                        0 <= i < models@.len() ==> (#[trigger] models@[i])@ == listed_model(
                            all[i]@,
                        ),
            {
                let display_name = display_name(id.as_str());
                models.push(
                    ModelInfo {
                        id,
                        display_name,
                        max_tokens: DEFAULT_MAX_TOKENS,
                        supports_tools: true,
                        supports_images: false,
                        local_path: None,
                    },
                );
            }
            assert(model_views(models@) =~= all.map_values(|id: String| listed_model(id@)));
            Ok(models)
        },
        None => Err("Failed to parse /v1/models response".to_owned()),
    }
}

/// The file `config.json` of a snapshot.
#[derive(Debug)]
pub enum ConfigFile {
    Missing,
    Unreadable,
    Text(String),
}

/// A snapshot of a model in the cache: its directory, its configuration, and the
/// names of the files in it.
#[derive(Debug)]
pub struct Snapshot {
    pub path: String,
    pub config: ConfigFile,
    pub files: Vec<String>,
}

/// A directory of the cache: its name, and the snapshots in it, if it has a
/// directory for them.
#[derive(Debug)]
pub struct CacheEntry {
    pub dir_name: String,
    pub snapshots: Option<Vec<Snapshot>>,
}

/// Whether `name` is the name of a file with a model's weights.
pub open spec fn is_weights(name: Seq<char>) -> bool {
    ends_with(name, ".safetensors"@)
}

/// The first of `files`, from `from` on, that holds a model's weights.
pub open spec fn first_weights(files: Seq<String>, from: int) -> Option<int>
    decreases files.len() - from,
{
    if from < 0 || from >= files.len() {
        None
    } else if is_weights(files[from]@) {
        Some(from)
    } else {
        first_weights(files, from + 1)
    }
}

/// The first of `snapshots`, from `from` on, that has a configuration.
pub open spec fn first_with_config(snapshots: Seq<Snapshot>, from: int) -> Option<int>
    decreases snapshots.len() - from,
{
    if from < 0 || from >= snapshots.len() {
        None
    } else if !(snapshots[from].config is Missing) {
        Some(from)
    } else {
        first_with_config(snapshots, from + 1)
    }
}

/// The first of `snapshots`, from `from` on, that has a file with weights, and
/// the first such file.
pub open spec fn first_with_weights(snapshots: Seq<Snapshot>, from: int) -> Option<(int, int)>
    decreases snapshots.len() - from,
{
    if from < 0 || from >= snapshots.len() {
        None
    } else {
        match first_weights(snapshots[from].files@, 0) {
            Some(file) => Some((from, file)),
            None => first_with_weights(snapshots, from + 1),
        }
    }
}

/// The first of `snapshots`, from `from` on, that has both a configuration and a
/// file with weights.
pub open spec fn first_with_both(snapshots: Seq<Snapshot>, from: int) -> Option<int>
    decreases snapshots.len() - from,
{
    if from < 0 || from >= snapshots.len() {
        None
    } else if !(snapshots[from].config is Missing) && first_weights(snapshots[from].files@, 0)
        is Some {
        Some(from)
    } else {
        first_with_both(snapshots, from + 1)
    }
}

/// The snapshot whose configuration counts: the first that has weights too; the
/// first that has one where none has both.
pub open spec fn config_found(snapshots: Seq<Snapshot>) -> Option<int> {
    match first_with_both(snapshots, 0) {
        Some(i) => Some(i),
        None => first_with_config(snapshots, 0),
    }
}

/// The snapshot that is the model, and its first file with weights: the first
/// snapshot that has a configuration too; the first that has weights where none
/// has both.
pub open spec fn weights_found(snapshots: Seq<Snapshot>) -> Option<(int, int)> {
    match first_with_both(snapshots, 0) {
        Some(i) => Some((i, first_weights(snapshots[i].files@, 0)->0)),
        None => first_with_weights(snapshots, 0),
    }
}

/// Where a snapshot has both a configuration and weights, the model and its
/// configuration are found in one and the same snapshot.
pub proof fn a_whole_snapshot_is_taken_whole(snapshots: Seq<Snapshot>, k: int)
    requires
        0 <= k < snapshots.len(),
        !(snapshots[k].config is Missing),
        first_weights(snapshots[k].files@, 0) is Some,
    ensures
        config_found(snapshots) is Some,
        weights_found(snapshots) is Some,
        config_found(snapshots)->0 == (weights_found(snapshots)->0).0,
        config_found(snapshots)->0 <= k,
{
    lemma_first_with_both(snapshots, 0, k);
}

proof fn lemma_first_with_both(snapshots: Seq<Snapshot>, from: int, k: int)
    requires
        0 <= from <= k < snapshots.len(),
        !(snapshots[k].config is Missing),
        first_weights(snapshots[k].files@, 0) is Some,
    ensures
        first_with_both(snapshots, from) is Some,
        from <= first_with_both(snapshots, from)->0 <= k,
    decreases k - from,
{
    if from < k {
        lemma_first_with_both(snapshots, from + 1, k);
    }
}

/// The first of the files that holds a model's weights.
fn find_weights(files: &Vec<String>) -> (file: Option<usize>)
    ensures
        match file {
            Some(file) => file < files@.len() && first_weights(files@, 0) == Some(file as int),
            None => first_weights(files@, 0) is None,
        },
{
    let mut i: usize = 0;
    while i < files.len()
        invariant
            i <= files@.len(),
            first_weights(files@, 0) == first_weights(files@, i as int),
        decreases files@.len() - i,
    {
        if ends_with_text(&chars_of(files[i].as_str()), ".safetensors") {
            return Some(i);
        }
        i += 1;
    }
    None
}

/// The first snapshot that has both a configuration and weights, as the one and
/// as the other, with its first file with weights; where none has both, the first
/// that has the one and the first that has the other.
pub fn find_model_files(snapshots: &Vec<Snapshot>) -> (found: (
    Option<usize>,
    Option<(usize, usize)>,
))
    ensures
        match found.0 {
            Some(i) => i < snapshots@.len() && config_found(snapshots@) == Some(i as int),
            None => config_found(snapshots@) is None,
        },
        match found.1 {
            Some((i, file)) => i < snapshots@.len() && weights_found(snapshots@) == Some(
                (i as int, file as int),
            ),
            None => weights_found(snapshots@) is None,
        },
{
    let mut config: Option<usize> = None;
    let mut weights: Option<(usize, usize)> = None;
    let mut i: usize = 0;
    while i < snapshots.len()
        invariant
            i <= snapshots@.len(),
            first_with_both(snapshots@, 0) == first_with_both(snapshots@, i as int),
            match config {
                Some(c) => c < snapshots@.len() && first_with_config(snapshots@, 0) == Some(
                    c as int,
                ),
                None => first_with_config(snapshots@, 0) == first_with_config(
                    snapshots@,
                    i as int,
                ),
            },
            match weights {
                Some((w, file)) => w < snapshots@.len() && first_with_weights(snapshots@, 0)
                    == Some((w as int, file as int)),
                None => first_with_weights(snapshots@, 0) == first_with_weights(
                    snapshots@,
                    i as int,
                ),
            },
        decreases snapshots@.len() - i,
    {
        let has_config = match &snapshots[i].config {
            ConfigFile::Missing => false,
            _ => true,
        };
        let file = find_weights(&snapshots[i].files);
        match file {
            Some(file) => {
                if has_config {
                    return (Some(i), Some((i, file)));
                }
                if weights.is_none() {
                    weights = Some((i, file));
                }
            },
            None => {},
        }
        if has_config && config.is_none() {
            config = Some(i);
        }
        i += 1;
    }
    (config, weights)
}

/// The size of the context window, from the fields of a configuration that may
/// tell it: the first that does, in this order.
pub open spec fn window_size(
    max_position_embeddings: Option<u64>,
    n_positions: Option<u64>,
    max_seq_length: Option<u64>,
) -> u64 {
    if max_position_embeddings is Some {
        max_position_embeddings->0
    } else if n_positions is Some {
        n_positions->0
    } else if max_seq_length is Some {
        max_seq_length->0
    } else {
        DEFAULT_MAX_TOKENS
    }
}

/// The size of the context window, from the fields of a configuration that may
/// tell it.
pub fn context_length(
    max_position_embeddings: Option<u64>,
    n_positions: Option<u64>,
    max_seq_length: Option<u64>,
) -> (size: u64)
    ensures
        size == window_size(max_position_embeddings, n_positions, max_seq_length),
{
    if let Some(size) = max_position_embeddings {
        return size;
    }
    if let Some(size) = n_positions {
        return size;
    }
    if let Some(size) = max_seq_length {
        return size;
    }
    DEFAULT_MAX_TOKENS
}

/// The size of the context window that the JSON value with the compact text
/// `json` tells.
pub open spec fn window_size_in(json: Seq<char>) -> u64 {
    window_size(
        json_u64_member(json, "max_position_embeddings"@),
        json_u64_member(json, "n_positions"@),
        json_u64_member(json, "max_seq_length"@),
    )
}

/// The size of the context window that a configuration with the text `content`
/// tells.
pub fn read_context_length(content: &str) -> (size: Result<u64, JsonError>)
    ensures
        match size {
            Ok(size) => parsed_json(content@) is Ok && size == window_size_in(
                parsed_json(content@)->Ok_0,
            ),
            Err(error) => parsed_json(content@) == Err::<Seq<char>, _>(
                json_error_text(error.error),
            ) && error.message@ == json_error_text(error.error),
        },
{
    match value_from_str(content) {
        Ok(config) => Ok(
            context_length(
                u64_member(&config, "max_position_embeddings"),
                u64_member(&config, "n_positions"),
                u64_member(&config, "max_seq_length"),
            ),
        ),
        Err(error) => Err(json_error(error)),
    }
}

/// The size of the context window that a configuration tells; the default where
/// it cannot be read.
pub open spec fn window_size_of(config: ConfigFile) -> u64 {
    match config {
        ConfigFile::Text(content) => match parsed_json(content@) {
            Ok(json) => window_size_in(json),
            Err(_) => DEFAULT_MAX_TOKENS,
        },
        _ => DEFAULT_MAX_TOKENS,
    }
}

/// The identifier of the model that the cache keeps under `dir_name`.
pub open spec fn cached_id(dir_name: Seq<char>) -> Seq<char> {
    replaced(dir_name.skip("models--"@.len() as int), "--"@, "/"@)
}

/// The model in a directory of the cache: there is one where the directory is a
/// model's and a snapshot holds weights.
pub open spec fn cached_model(entry: CacheEntry) -> Option<ModelInfoView> {
    match entry.snapshots {
        Some(snapshots) => match weights_found(snapshots@) {
            Some((i, _)) => if starts_with(entry.dir_name@, "models--"@) {
                let id = cached_id(entry.dir_name@);
                Some(
                    ModelInfoView {
                        id,
                        display_name: name_part(id),
                        max_tokens: match config_found(snapshots@) {
                            Some(c) => window_size_of(snapshots@[c].config),
                            None => DEFAULT_MAX_TOKENS,
                        },
                        supports_tools: true,
                        supports_images: false,
                        local_path: Some(snapshots@[i].path@),
                    },
                )
            } else {
                None
            },
            None => None,
        },
        None => None,
    }
}

/// The models in the directories of the cache, in order.
pub open spec fn cached_models(entries: Seq<CacheEntry>) -> Seq<ModelInfoView>
    decreases entries.len(),
{
    if entries.len() == 0 {
        Seq::empty()
    } else {
        match cached_model(entries.last()) {
            Some(model) => cached_models(entries.drop_last()).push(model),
            None => cached_models(entries.drop_last()),
        }
    }
}

/// A model is found in the cache only where its weights are there: a
/// configuration alone was never fully downloaded.
pub proof fn cached_models_have_weights(entry: CacheEntry)
    requires
        cached_model(entry) is Some,
    ensures
        exists|i: int, k: int|
            0 <= i < entry.snapshots->0@.len() && 0 <= k < entry.snapshots->0@[i].files@.len()
                && is_weights(#[trigger] entry.snapshots->0@[i].files@[k]@),
{
    let snapshots = entry.snapshots->0@;
    if first_with_both(snapshots, 0) is Some {
        lemma_both(snapshots, 0);
        lemma_first_weights(snapshots[first_with_both(snapshots, 0)->0].files@, 0);
    } else {
        lemma_first_with_weights(snapshots, 0);
    }
}

proof fn lemma_both(snapshots: Seq<Snapshot>, from: int)
    requires
        first_with_both(snapshots, from) is Some,
    ensures
        ({
            let i = first_with_both(snapshots, from)->0;
            0 <= i < snapshots.len() && first_weights(snapshots[i].files@, 0) is Some
        }),
    decreases snapshots.len() - from,
{
    if snapshots[from].config is Missing || first_weights(snapshots[from].files@, 0) is None {
        lemma_both(snapshots, from + 1);
    }
}

proof fn lemma_first_with_weights(snapshots: Seq<Snapshot>, from: int)
    requires
        first_with_weights(snapshots, from) is Some,
    ensures
        ({
            let (i, k) = first_with_weights(snapshots, from)->0;
            &&& 0 <= i < snapshots.len()
            &&& 0 <= k < snapshots[i].files@.len()
            &&& is_weights(snapshots[i].files@[k]@)
        }),
    decreases snapshots.len() - from,
{
    if first_weights(snapshots[from].files@, 0) is Some {
        lemma_first_weights(snapshots[from].files@, 0);
    } else {
        lemma_first_with_weights(snapshots, from + 1);
    }
}

proof fn lemma_first_weights(files: Seq<String>, from: int)
    requires
        first_weights(files, from) is Some,
    ensures
        0 <= first_weights(files, from)->0 < files.len(),
        is_weights(files[first_weights(files, from)->0]@),
    decreases files.len() - from,
{
    if !is_weights(files[from]@) {
        lemma_first_weights(files, from + 1);
    }
}

/// The model in a directory of the cache.
fn model_in_entry(entry: &CacheEntry) -> (model: Option<ModelInfo>)
    ensures
        match model {
            Some(model) => cached_model(*entry) == Some(model@),
            None => cached_model(*entry) is None,
        },
{
    let chars = chars_of(entry.dir_name.as_str());
    if !starts_with_text(&chars, "models--") {
        return None;
    }
    match &entry.snapshots {
        Some(snapshots) => {
            let (config, weights) = find_model_files(snapshots);
            match weights {
                Some((i, _)) => {
                    let max_tokens: u64 = match config {
                        Some(c) => match &snapshots[c].config {
                            ConfigFile::Text(content) => match read_context_length(
                                content.as_str(),
                            ) {
                                Ok(size) => size,
                                Err(_) => DEFAULT_MAX_TOKENS,
                            },
                            _ => DEFAULT_MAX_TOKENS,
                        },
                        None => DEFAULT_MAX_TOKENS,
                    };
                    let rest = slice_subrange(&chars, "models--".unicode_len(), chars.len());
                    assert(rest@ =~= entry.dir_name@.skip("models--"@.len() as int));
                    let id = string_of(&replace_chars(rest, &chars_of("--"), &chars_of("/")));
                    let display_name = display_name(id.as_str());
                    Some(
                        ModelInfo {
                            id,
                            display_name,
                            max_tokens,
                            supports_tools: true,
                            supports_images: false,
                            local_path: Some(snapshots[i].path.clone()),
                        },
                    )
                },
                None => None,
            }
        },
        None => None,
    }
}

/// The models in the directories of the local cache.
pub fn discover_models_from_cache(entries: &Vec<CacheEntry>) -> (models: Vec<ModelInfo>)
    ensures
        model_views(models@) == cached_models(entries@),
{
    let mut models: Vec<ModelInfo> = Vec::new();
    let mut i: usize = 0;
    assert(entries@.take(0) =~= Seq::empty());
    assert(model_views(models@) =~= Seq::empty());
    while i < entries.len()
        invariant
            i <= entries@.len(),
            model_views(models@) == cached_models(entries@.take(i as int)),
        decreases entries@.len() - i,
    {
        let ghost next = entries@.take(i + 1);
        let ghost before = models@;
        assert(next.drop_last() =~= entries@.take(i as int));
        match model_in_entry(&entries[i]) {
            Some(model) => {
                models.push(model);
                assert(model_views(models@) =~= model_views(before).push(model@));
            },
            None => {},
        }
        i += 1;
    }
    assert(entries@.take(entries@.len() as int) =~= entries@);
    models
}

proof fn lemma_weights_end_so(name: Seq<char>)
    ensures
        is_weights(name) <==> exists|stem: Seq<char>| name == #[trigger] (stem
            + ".safetensors"@),
{
    let end = ".safetensors"@;
    if is_weights(name) {
        what_stands_is_a_part(name, end, 0);
        assert(name == name.take(name.len() - end.len()) + end);
    }
    assert forall|stem: Seq<char>| name == #[trigger] (stem + end) implies is_weights(name) by {
        standing_is_being_a_part(stem, end, Seq::empty());
    }
}

proof fn lemma_first_weights_is_first(files: Seq<String>, from: int)
    requires
        0 <= from,
    ensures
        match first_weights(files, from) {
            Some(k) => from <= k < files.len() && is_weights(files[k]@) && forall|j: int|
                from <= j < k ==> !is_weights((#[trigger] files[j])@),
            None => forall|j: int|
                from <= j < files.len() ==> !is_weights((#[trigger] files[j])@),
        },
    decreases files.len() - from,
{
    if from < files.len() && !is_weights(files[from]@) {
        lemma_first_weights_is_first(files, from + 1);
    }
}

/// Whether a snapshot holds a file with weights: one whose name ends in
/// `.safetensors`.
pub open spec fn has_weights(snapshot: Snapshot) -> bool {
    exists|k: int, stem: Seq<char>|
        #![trigger snapshot.files@[k], stem + ".safetensors"@]
        0 <= k < snapshot.files@.len() && snapshot.files@[k]@ == stem + ".safetensors"@
}

proof fn lemma_has_weights(snapshot: Snapshot)
    ensures
        has_weights(snapshot) <==> first_weights(snapshot.files@, 0) is Some,
{
    let files = snapshot.files@;
    lemma_first_weights_is_first(files, 0);
    if first_weights(files, 0) is Some {
        let k = first_weights(files, 0)->0;
        lemma_weights_end_so(files[k]@);
        let stem = choose|stem: Seq<char>| files[k]@ == #[trigger] (stem + ".safetensors"@);
        assert(snapshot.files@[k]@ == stem + ".safetensors"@);
    }
    if has_weights(snapshot) {
        let (k, stem) = choose|k: int, stem: Seq<char>|
            #![trigger snapshot.files@[k], stem + ".safetensors"@]
            0 <= k < snapshot.files@.len() && snapshot.files@[k]@ == stem + ".safetensors"@;
        lemma_weights_end_so(files[k]@);
        assert(is_weights(files[k]@));
    }
}

proof fn lemma_first_snapshots(snapshots: Seq<Snapshot>, from: int)
    requires
        0 <= from,
    ensures
        match first_with_both(snapshots, from) {
            Some(i) => from <= i < snapshots.len() && !(snapshots[i].config is Missing)
                && has_weights(snapshots[i]) && forall|j: int|
                from <= j < i ==> (#[trigger] snapshots[j]).config is Missing || !has_weights(
                    snapshots[j],
                ),
            None => forall|j: int|
                from <= j < snapshots.len() ==> (#[trigger] snapshots[j]).config is Missing
                    || !has_weights(snapshots[j]),
        },
        match first_with_config(snapshots, from) {
            Some(i) => from <= i < snapshots.len() && !(snapshots[i].config is Missing) && forall|
                j: int,
            |
                from <= j < i ==> (#[trigger] snapshots[j]).config is Missing,
            None => forall|j: int|
                from <= j < snapshots.len() ==> (#[trigger] snapshots[j]).config is Missing,
        },
        match first_with_weights(snapshots, from) {
            Some((i, file)) => from <= i < snapshots.len() && has_weights(snapshots[i])
                && first_weights(snapshots[i].files@, 0) == Some(file) && forall|j: int|
                from <= j < i ==> !has_weights(#[trigger] snapshots[j]),
            None => forall|j: int|
                from <= j < snapshots.len() ==> !has_weights(#[trigger] snapshots[j]),
        },
    decreases snapshots.len() - from,
{
    if from < snapshots.len() {
        lemma_has_weights(snapshots[from]);
        lemma_first_snapshots(snapshots, from + 1);
    }
}

/// A model is found in a directory of the cache exactly where the directory's name
/// begins as those of models do, and a snapshot in it holds a file whose name ends
/// in `.safetensors`. That the ending stands elsewhere in a name is not enough.
pub proof fn a_model_is_found_where_its_weights_are(entry: CacheEntry)
    ensures
        cached_model(entry) is Some <==> {
            &&& exists|rest: Seq<char>| entry.dir_name@ == #[trigger] ("models--"@ + rest)
            &&& entry.snapshots is Some
            &&& exists|i: int, k: int, stem: Seq<char>|
                #![trigger entry.snapshots->0@[i].files@[k], stem + ".safetensors"@]
                0 <= i < entry.snapshots->0@.len() && 0 <= k < entry.snapshots->0@[i].files@.len()
                    && entry.snapshots->0@[i].files@[k]@ == stem + ".safetensors"@
        },
{
    let name = entry.dir_name@;
    let prefix = "models--"@;
    if starts_with(name, prefix) {
        what_stands_is_a_part(name, prefix, 0);
        assert(name == prefix + name.skip(prefix.len() as int));
    }
    if exists|rest: Seq<char>| name == #[trigger] (prefix + rest) {
        let rest = choose|rest: Seq<char>| name == #[trigger] (prefix + rest);
        standing_is_being_a_part(Seq::empty(), prefix, rest);
    }
    if entry.snapshots is Some {
        let snapshots = entry.snapshots->0@;
        lemma_first_snapshots(snapshots, 0);
        if weights_found(snapshots) is Some {
            let i = (weights_found(snapshots)->0).0;
            assert(has_weights(snapshots[i]));
            let (k, stem) = choose|k: int, stem: Seq<char>|
                #![trigger snapshots[i].files@[k], stem + ".safetensors"@]
                0 <= k < snapshots[i].files@.len() && snapshots[i].files@[k]@ == stem
                    + ".safetensors"@;
            assert(entry.snapshots->0@[i].files@[k]@ == stem + ".safetensors"@);
        } else {
            assert forall|i: int, k: int, stem: Seq<char>|
                #![trigger entry.snapshots->0@[i].files@[k], stem + ".safetensors"@]
                0 <= i < snapshots.len() && 0 <= k
                    < entry.snapshots->0@[i].files@.len() implies entry.snapshots->0@[i].files@[k]@
                != stem + ".safetensors"@ by {
                assert(!has_weights(snapshots[i]));
            }
        }
    }
}

/// The configuration and the weights are looked for in the first snapshot that has
/// both; where none has, in the first that has the one and in the first that has the
/// other. The file with the weights is the first such file of its snapshot.
pub proof fn the_first_whole_snapshot_counts(snapshots: Seq<Snapshot>, i: int)
    requires
        0 <= i < snapshots.len(),
    ensures
        !(snapshots[i].config is Missing) && has_weights(snapshots[i]) && (forall|j: int|
            0 <= j < i ==> (#[trigger] snapshots[j]).config is Missing || !has_weights(
                snapshots[j],
            )) ==> {
            &&& config_found(snapshots) == Some(i)
            &&& weights_found(snapshots) is Some
            &&& (weights_found(snapshots)->0).0 == i
        },
        (forall|j: int|
            0 <= j < snapshots.len() ==> (#[trigger] snapshots[j]).config is Missing
                || !has_weights(snapshots[j])) ==> {
            &&& !(snapshots[i].config is Missing) && (forall|j: int|
                0 <= j < i ==> (#[trigger] snapshots[j]).config is Missing) ==> config_found(
                snapshots,
            ) == Some(i)
            &&& has_weights(snapshots[i]) && (forall|j: int|
                0 <= j < i ==> !has_weights(#[trigger] snapshots[j])) ==> weights_found(
                snapshots,
            ) is Some && (weights_found(snapshots)->0).0 == i
        },
        weights_found(snapshots) is Some ==> {
            let (at, file) = weights_found(snapshots)->0;
            &&& 0 <= at < snapshots.len()
            &&& 0 <= file < snapshots[at].files@.len()
            &&& exists|stem: Seq<char>|
                snapshots[at].files@[file]@ == #[trigger] (stem + ".safetensors"@)
            &&& forall|k: int, stem: Seq<char>|
                #![trigger snapshots[at].files@[k], stem + ".safetensors"@]
                0 <= k < file ==> snapshots[at].files@[k]@ != stem + ".safetensors"@
        },
{
    lemma_first_snapshots(snapshots, 0);
    if weights_found(snapshots) is Some {
        let (at, file) = weights_found(snapshots)->0;
        let files = snapshots[at].files@;
        lemma_has_weights(snapshots[at]);
        lemma_first_weights_is_first(files, 0);
        assert(first_weights(files, 0) == Some(file));
        lemma_weights_end_so(files[file]@);
        assert forall|k: int, stem: Seq<char>|
            #![trigger snapshots[at].files@[k], stem + ".safetensors"@]
            0 <= k < file implies snapshots[at].files@[k]@ != stem + ".safetensors"@ by {
            lemma_weights_end_so(files[k]@);
            assert(!is_weights(files[k]@));
        }
    }
}

/// Nothing is found where there is nothing to find: no configuration where no
/// snapshot has one, and no weights where none has any.
pub proof fn nothing_is_found_where_nothing_is(snapshots: Seq<Snapshot>)
    ensures
        (forall|j: int|
            0 <= j < snapshots.len() ==> (#[trigger] snapshots[j]).config is Missing)
            <==> config_found(snapshots) is None,
        (forall|j: int| 0 <= j < snapshots.len() ==> !has_weights(#[trigger] snapshots[j]))
            <==> weights_found(snapshots) is None,
{
    lemma_first_snapshots(snapshots, 0);
}

/// A model in the cache is called as its directory is, with slashes for double
/// hyphens, and shown under the last part of that. It is in the snapshot that its
/// weights were found in, and its context window is as the configuration found
/// tells.
pub proof fn a_cached_model_is_called_as_its_directory(entry: CacheEntry, rest: Seq<char>)
    requires
        entry.dir_name@ == "models--"@ + rest,
        cached_model(entry) is Some,
    ensures
        ({
            let model = cached_model(entry)->0;
            let snapshots = entry.snapshots->0@;
            let id = replaced(rest, "--"@, "/"@);
            &&& model.id == id
            &&& model.display_name == name_part(id)
            &&& model.supports_tools
            &&& !model.supports_images
            &&& model.local_path == Some(snapshots[(weights_found(snapshots)->0).0].path@)
            &&& config_found(snapshots) is Some ==> model.max_tokens == window_size_of(
                snapshots[config_found(snapshots)->0].config,
            )
            &&& config_found(snapshots) is None ==> model.max_tokens == 32768
        }),
{
    let prefix = "models--"@;
    assert((prefix + rest).skip(prefix.len() as int) =~= rest);
}

/// The context window is as large as the first of these members of the
/// configuration tells that is there; it has the default size where none is, and
/// where there is no configuration that can be read.
pub proof fn the_configuration_tells_the_window(config: ConfigFile, json: Seq<char>)
    ensures
        !(config is Text) ==> window_size_of(config) == 32768,
        config is Text && parsed_json(config->Text_0@) is Err ==> window_size_of(config) == 32768,
        config is Text && parsed_json(config->Text_0@) == Ok::<_, Seq<char>>(json) ==> {
            let embeddings = json_u64_member(json, "max_position_embeddings"@);
            let positions = json_u64_member(json, "n_positions"@);
            let length = json_u64_member(json, "max_seq_length"@);
            let size = window_size_of(config);
            &&& size == window_size_in(json)
            &&& embeddings is Some ==> size == embeddings->0
            &&& embeddings is None && positions is Some ==> size == positions->0
            &&& embeddings is None && positions is None && length is Some ==> size == length->0
            &&& embeddings is None && positions is None && length is None ==> size == 32768
        },
{
}

/// Of the sizes that may be told the first counts.
pub proof fn the_first_size_told_counts(
    first: Option<u64>,
    second: Option<u64>,
    third: Option<u64>,
    size: u64,
    json: Seq<char>,
)
    ensures
        window_size(Some(size), second, third) == size,
        window_size(None, Some(size), third) == size,
        window_size(None, None, Some(size)) == size,
        window_size(None, None, None) == 32768,
        window_size_in(json) == window_size(
            json_u64_member(json, "max_position_embeddings"@),
            json_u64_member(json, "n_positions"@),
            json_u64_member(json, "max_seq_length"@),
        ),
{
}

/// The models of the cache are those of its directories, one after the other.
pub proof fn the_cache_is_read_directory_by_directory(
    first: Seq<CacheEntry>,
    second: Seq<CacheEntry>,
    entry: CacheEntry,
)
    ensures
        cached_models(Seq::empty()) == Seq::<ModelInfoView>::empty(),
        cached_models(first + second) == cached_models(first) + cached_models(second),
        cached_models(seq![entry]) == (match cached_model(entry) {
            Some(model) => seq![model],
            None => Seq::empty(),
        }),
    decreases second.len(),
{
    let none = Seq::<CacheEntry>::empty();
    assert(seq![entry].drop_last() =~= none);
    assert(cached_models(none) =~= Seq::empty());
    assert(cached_models(seq![entry]) =~= (match cached_model(entry) {
        Some(model) => seq![model],
        None => Seq::empty(),
    }));
    if second.len() == 0 {
        assert(first + second =~= first);
        assert(cached_models(first) + cached_models(second) =~= cached_models(first));
    } else {
        assert((first + second).drop_last() =~= first + second.drop_last());
        the_cache_is_read_directory_by_directory(first, second.drop_last(), entry);
        assert(cached_models(first + second) =~= cached_models(first) + cached_models(second));
    }
}

/// A model that the server lists goes by the identifier that it is listed under, and
/// is shown under the last part of that. A status from 200 to 299 tells of success;
/// for any other the error tells it and what came with it.
pub proof fn listed_models_go_by_their_identifiers(
    id: Seq<char>,
    code: u16,
    status: Seq<char>,
    body: Seq<char>,
)
    ensures
        listed_model(id).id == id,
        listed_model(id).display_name == name_part(id),
        listed_model(id).max_tokens == 32768,
        listed_model(id).supports_tools,
        !listed_model(id).supports_images,
        listed_model(id).local_path is None,
        is_success(code) <==> code / 100 == 2,
        list_error(status, body) == "Failed to list models: HTTP "@ + status + " - "@ + body,
{
}

/// What is told of models is what they hold, each in its place.
pub proof fn models_hold_what_there_is(models: Seq<ModelInfo>, i: int)
    ensures
        model_views(models).len() == models.len(),
        0 <= i < models.len() ==> {
            let view = model_views(models)[i];
            let model = models[i];
            &&& view.id == model.id@
            &&& view.display_name == model.display_name@
            &&& view.max_tokens == model.max_tokens
            &&& view.supports_tools == model.supports_tools
            &&& view.supports_images == model.supports_images
            &&& model.local_path is None ==> view.local_path is None
            &&& model.local_path is Some ==> view.local_path == Some(model.local_path->0@)
        },
{
}

} // verus!
