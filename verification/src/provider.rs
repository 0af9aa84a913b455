//! The provider: which models it offers, when the server is started, what the
//! server is sent and what its reply means.
use vstd::prelude::*;
use vstd::slice::slice_subrange;

use crate::json::{json_text, null, parsed_json, value_from_str};
use crate::lines::{join_strings, joined, strings};
use crate::model_discovery::{
    is_success, model_views, models_address, models_url, ModelInfo, ModelInfoView,
};
use crate::number::{decimal, push_decimal};
use crate::replace_lines_tool::{opt_str_view, opt_view};
use crate::process_manager::{ManagerView, ProcessManager};
use crate::request::{
    a_request_tells_all_that_was_asked, call_of, message_views, sent_for_all, stands_for,
    LanguageModelRequest, LanguageModelToolChoice, LanguageModelToolUse, LocalMlxRequest,
};
use crate::search::{starts_with, starts_with_text, what_stands_is_a_part};
use crate::text::{chars_of, same_chars, same_str, string_of};

verus! {

/// A model that the settings name. `F` is the type of its real numbers.
#[derive(Debug)]
pub struct AvailableModel<F> {
    pub name: String,
    pub display_name: Option<String>,
    pub max_tokens: u64,
    pub enable_thinking: Option<bool>,
    pub repeat_penalty: Option<F>,
    pub top_p: Option<F>,
    pub top_k: Option<u32>,
}

/// The settings of the provider.
#[derive(Debug)]
pub struct LocalMlxSettings<F> {
    pub server_binary: String,
    pub server_args: Vec<String>,
    pub model_directory: Option<String>,
    /// After how many seconds without use the server is stopped; never where 0.
    pub idle_timeout_seconds: u64,
    pub available_models: Vec<AvailableModel<F>>,
}

/// The arguments that the server is started with unless the settings tell
/// others.
pub open spec fn default_args() -> Seq<Seq<char>> {
    seq!["--port"@, "{port}"@, "--host"@, "127.0.0.1"@]
}

impl<F> Default for LocalMlxSettings<F> {
    fn default() -> (settings: Self)
        ensures
            settings.server_binary@ == "mlx_lm.server"@,
            strings(settings.server_args@) == default_args(),
            settings.model_directory is None,
            settings.idle_timeout_seconds == 300,
            settings.available_models@.len() == 0,
    {
        let mut server_args: Vec<String> = Vec::new();
        server_args.push("--port".to_owned());
        server_args.push("{port}".to_owned());
        server_args.push("--host".to_owned());
        server_args.push("127.0.0.1".to_owned());
        assert(strings(server_args@) =~= default_args());
        LocalMlxSettings {
            server_binary: "mlx_lm.server".to_owned(),
            server_args,
            model_directory: None,
            idle_timeout_seconds: 300,
            available_models: Vec::new(),
        }
    }
}

fn clone_strings(list: &Vec<String>) -> (copy: Vec<String>)
    ensures
        strings(copy@) == strings(list@),
{
    let mut copy: Vec<String> = Vec::new();
    let mut i: usize = 0;
    while i < list.len()
        invariant
            i <= list@.len(),
            copy@.len() == i,
            forall|k: int| 0 <= k < i ==> (#[trigger] copy@[k])@ == list@[k]@,
        decreases list@.len() - i,
    {
        copy.push(list[i].clone());
        i += 1;
    }
    assert(strings(copy@) =~= strings(list@));
    copy
}

/// What has to be done before models can be asked.
#[derive(Debug)]
pub enum AuthenticateAction {
    /// Nothing: the server runs.
    Ready,
    /// Nothing can be done: the settings name no model.
    CredentialsNotFound,
    /// Start the server with this model.
    Start(String),
}

/// What is to be done once the server was started.
#[derive(Debug)]
pub struct AfterStart {
    /// Fetch the list of its models from here.
    pub fetch_models_from: String,
    /// Watch it for being idle; otherwise for an exit alone.
    pub watch: bool,
}

/// What the provider knows.
#[derive(Debug)]
pub struct State {
    pub discovered_models: Vec<ModelInfo>,
    pub server_port: Option<u16>,
    pub server_binary: String,
    pub server_args: Vec<String>,
    pub idle_timeout_seconds: u64,
    pub last_error: Option<String>,
}

/// What a [`State`] holds.
pub struct StateView {
    pub discovered_models: Seq<ModelInfoView>,
    pub server_port: Option<u16>,
    pub server_binary: Seq<char>,
    pub server_args: Seq<Seq<char>>,
    pub idle_timeout_seconds: u64,
    pub last_error: Option<Seq<char>>,
}

impl View for State {
    type V = StateView;

    open spec fn view(&self) -> StateView {
        StateView {
            discovered_models: model_views(self.discovered_models@),
            server_port: self.server_port,
            server_binary: self.server_binary@,
            server_args: strings(self.server_args@),
            idle_timeout_seconds: self.idle_timeout_seconds,
            last_error: opt_view(self.last_error),
        }
    }
}

/// What is told where the server could not be started.
pub open spec fn start_failure(error: Seq<char>) -> Seq<char> {
    "Failed to start local MLX server: "@ + error
}

/// What is told where the server could not be started.
pub fn start_error(error: &str) -> (text: String)
    ensures
        text@ == start_failure(error@),
{
    let mut text = "Failed to start local MLX server: ".to_owned();
    text.append(error);
    text
}

impl State {
    /// Whether models can be asked: the server runs, as `running` tells, and
    /// models were discovered.
    pub fn is_authenticated(&self, running: bool) -> (yes: bool)
        ensures
            yes == (running && self@.discovered_models.len() > 0),
    {
        running && self.discovered_models.len() > 0
    }

    /// The model that the settings name first.
    pub fn first_model_from_settings<F>(&self, settings: &LocalMlxSettings<F>) -> (model: Option<
        String,
    >)
        ensures
            match model {
                Some(model) => settings.available_models@.len() > 0 && model@
                    == settings.available_models@[0].name@,
                None => settings.available_models@.len() == 0,
            },
    {
        if settings.available_models.len() > 0 {
            Some(settings.available_models[0].name.clone())
        } else {
            None
        }
    }

    /// What has to be done before models can be asked, where `running` tells
    /// whether the server runs.
    pub fn authenticate<F>(&self, running: bool, settings: &LocalMlxSettings<F>) -> (action:
        AuthenticateAction)
        ensures
            match action {
                AuthenticateAction::Ready => running,
                AuthenticateAction::CredentialsNotFound => !running
                    && settings.available_models@.len() == 0,
                AuthenticateAction::Start(model) => !running && settings.available_models@.len()
                    > 0 && model@ == settings.available_models@[0].name@,
            },
    {
        if running {
            return AuthenticateAction::Ready;
        }
        match self.first_model_from_settings(settings) {
            Some(model) => AuthenticateAction::Start(model),
            None => AuthenticateAction::CredentialsNotFound,
        }
    }

    /// Notes that the server was started on `port`. Tells what is to be done next:
    /// its models are to be fetched, and it is to be watched, for being idle too where
    /// there is a timeout.
    pub fn server_started(&mut self, port: u16) -> (next: AfterStart)
        ensures
            final(self)@ == (StateView {
                server_port: Some(port),
                last_error: None,
                ..old(self)@
            }),
            next.fetch_models_from@ == models_address(server_address(port)),
            next.watch == (old(self)@.idle_timeout_seconds > 0),
    {
        self.server_port = Some(port);
        self.last_error = None;
        AfterStart {
            fetch_models_from: models_url(server_url(port).as_str()),
            watch: self.idle_timeout_seconds > 0,
        }
    }

    /// Notes the models that the server lists: they are the models discovered.
    pub fn models_fetched(&mut self, models: Vec<ModelInfo>)
        ensures
            final(self)@ == (StateView {
                discovered_models: model_views(models@),
                ..old(self)@
            }),
    {
        self.discovered_models = models;
    }

    /// Notes that the server could not be started, for the user to see. Tells
    /// what is noted.
    pub fn server_failed(&mut self, error: &str) -> (text: String)
        ensures
            final(self)@ == (StateView {
                last_error: Some(start_failure(error@)),
                ..old(self)@
            }),
            text@ == start_failure(error@),
    {
        let text = start_error(error);
        self.last_error = Some(text.clone());
        text
    }
}

/// The provider of the models of a local server.
#[derive(Debug)]
pub struct LocalMlxLanguageModelProvider {
    pub state: State,
}

/// The name under which a configured model is shown.
pub open spec fn shown_name<F>(model: AvailableModel<F>) -> Seq<char> {
    match model.display_name {
        Some(name) => name@,
        None => model.name@,
    }
}

/// What is known of a model that the settings name.
pub open spec fn configured_info<F>(model: AvailableModel<F>) -> ModelInfoView {
    ModelInfoView {
        id: model.name@,
        display_name: shown_name(model),
        max_tokens: model.max_tokens,
        supports_tools: true,
        supports_images: false,
        local_path: None,
    }
}

/// What a [`LocalMlxLanguageModel`] holds.
pub struct LanguageModelView<F> {
    pub id: Seq<char>,
    pub info: ModelInfoView,
    pub request_limit: usize,
    pub server_binary: Seq<char>,
    pub server_args: Seq<Seq<char>>,
    pub enable_thinking: Option<bool>,
    pub repeat_penalty: Option<F>,
    pub top_p: Option<F>,
    pub top_k: Option<u32>,
}

/// The model that the settings name, offered.
pub open spec fn configured_model<F>(
    state: StateView,
    model: AvailableModel<F>,
) -> LanguageModelView<F> {
    LanguageModelView {
        id: model.name@,
        info: configured_info(model),
        request_limit: 1,
        server_binary: state.server_binary,
        server_args: state.server_args,
        enable_thinking: model.enable_thinking,
        repeat_penalty: model.repeat_penalty,
        top_p: model.top_p,
        top_k: model.top_k,
    }
}

/// The model that was discovered, offered.
pub open spec fn discovered_model<F>(state: StateView, info: ModelInfoView) -> LanguageModelView<
    F,
> {
    LanguageModelView {
        id: info.id,
        info,
        request_limit: 1,
        server_binary: state.server_binary,
        server_args: state.server_args,
        enable_thinking: None,
        repeat_penalty: None,
        top_p: None,
        top_k: None,
    }
}

/// Whether the settings name the model `id`.
pub open spec fn is_configured<F>(models: Seq<AvailableModel<F>>, id: Seq<char>) -> bool {
    exists|i: int| 0 <= i < models.len() && (#[trigger] models[i]).name@ == id
}

/// The models that the settings name, offered in their order.
pub open spec fn offered_from_settings<F>(
    state: StateView,
    models: Seq<AvailableModel<F>>,
) -> Seq<LanguageModelView<F>> {
    models.map_values(|model: AvailableModel<F>| configured_model(state, model))
}

/// Those of the discovered models `found` that the settings do not name, offered
/// in their order.
pub open spec fn offered_from_discovery<F>(
    state: StateView,
    models: Seq<AvailableModel<F>>,
    found: Seq<ModelInfoView>,
) -> Seq<LanguageModelView<F>>
    decreases found.len(),
{
    if found.len() == 0 {
        Seq::empty()
    } else if is_configured(models, found.last().id) {
        offered_from_discovery(state, models, found.drop_last())
    } else {
        offered_from_discovery(state, models, found.drop_last()).push(
            discovered_model(state, found.last()),
        )
    }
}

/// The models offered: those that the settings name, then the others that were
/// discovered.
pub open spec fn offered<F>(
    state: StateView,
    models: Seq<AvailableModel<F>>,
) -> Seq<LanguageModelView<F>> {
    offered_from_settings(state, models) + offered_from_discovery(
        state,
        models,
        state.discovered_models,
    )
}

/// What a sequence of offered models holds.
pub open spec fn offered_views<F>(models: Seq<LocalMlxLanguageModel<F>>) -> Seq<
    LanguageModelView<F>,
> {
    models.map_values(|model: LocalMlxLanguageModel<F>| model@)
}

/// Every model that the settings name is offered, with the parameters that they
/// tell for it, in their order and before any other.
pub proof fn every_configured_model_is_offered<F>(
    state: StateView,
    models: Seq<AvailableModel<F>>,
    i: int,
)
    requires
        0 <= i < models.len(),
    ensures
        i < offered(state, models).len(),
        offered(state, models)[i] == configured_model(state, models[i]),
{
}

/// Every discovered model is offered: as the settings have it where they name
/// it, else as it was discovered.
pub proof fn every_discovered_model_is_offered<F>(
    state: StateView,
    models: Seq<AvailableModel<F>>,
    k: int,
)
    requires
        0 <= k < state.discovered_models.len(),
    ensures
        ({
            let info = state.discovered_models[k];
            exists|i: int|
                0 <= i < offered(state, models).len() && (#[trigger] offered(state, models)[i]).id
                    == info.id && (is_configured(models, info.id) || offered(state, models)[i]
                    == discovered_model::<F>(state, info))
        }),
{
    let info = state.discovered_models[k];
    let first = offered_from_settings(state, models);
    if is_configured(models, info.id) {
        let i = choose|i: int| 0 <= i < models.len() && (#[trigger] models[i]).name@ == info.id;
        assert(first[i] == configured_model(state, models[i]));
        assert(offered(state, models)[i] == first[i]);
    } else {
        lemma_discovered_is_offered(state, models, state.discovered_models, k);
        let rest = offered_from_discovery(state, models, state.discovered_models);
        let j = choose|j: int|
            0 <= j < rest.len() && #[trigger] rest[j] == discovered_model::<F>(state, info);
        assert(offered(state, models)[first.len() + j] == rest[j]);
    }
}

proof fn lemma_discovered_is_offered<F>(
    state: StateView,
    models: Seq<AvailableModel<F>>,
    found: Seq<ModelInfoView>,
    k: int,
)
    requires
        0 <= k < found.len(),
        !is_configured(models, found[k].id),
    ensures
        exists|j: int|
            0 <= j < offered_from_discovery(state, models, found).len()
                && #[trigger] offered_from_discovery(state, models, found)[j]
                == discovered_model::<F>(state, found[k]),
    decreases found.len(),
{
    let all = offered_from_discovery(state, models, found);
    if k == found.len() - 1 {
        assert(all[all.len() - 1] == discovered_model::<F>(state, found[k]));
    } else {
        lemma_discovered_is_offered(state, models, found.drop_last(), k);
        let shorter = offered_from_discovery(state, models, found.drop_last());
        let j = choose|j: int|
            0 <= j < shorter.len() && #[trigger] shorter[j] == discovered_model::<F>(
                state,
                found[k],
            );
        assert(all[j] == shorter[j]);
    }
}

/// No model that the settings name is offered a second time because it was
/// discovered.
pub proof fn configured_models_are_not_offered_twice<F>(
    state: StateView,
    models: Seq<AvailableModel<F>>,
    found: Seq<ModelInfoView>,
)
    ensures
        forall|j: int|
            0 <= j < offered_from_discovery(state, models, found).len() ==> !is_configured(
                models,
                (#[trigger] offered_from_discovery(state, models, found)[j]).id,
            ),
    decreases found.len(),
{
    if found.len() > 0 {
        configured_models_are_not_offered_twice(state, models, found.drop_last());
    }
}

impl LocalMlxLanguageModelProvider {
    /// The provider with the settings `settings`, where `discovered_models` were
    /// found.
    pub fn new<F>(settings: &LocalMlxSettings<F>, discovered_models: Vec<ModelInfo>) -> (provider:
        Self)
        ensures
            provider.state@ == (StateView {
                discovered_models: model_views(discovered_models@),
                server_port: None,
                server_binary: settings.server_binary@,
                server_args: strings(settings.server_args@),
                idle_timeout_seconds: settings.idle_timeout_seconds,
                last_error: None,
            }),
    {
        LocalMlxLanguageModelProvider {
            state: State {
                discovered_models,
                server_port: None,
                server_binary: settings.server_binary.clone(),
                server_args: clone_strings(&settings.server_args),
                idle_timeout_seconds: settings.idle_timeout_seconds,
                last_error: None,
            },
        }
    }

    /// The provider's identifier.
    pub fn id(&self) -> (id: String)
        ensures
            id@ == "local-mlx"@,
    {
        "local-mlx".to_owned()
    }

    /// The provider's name.
    pub fn name(&self) -> (name: String)
        ensures
            name@ == "Local MLX"@,
    {
        "Local MLX".to_owned()
    }

    /// The models offered, with the settings `settings`.
    pub fn provided_models<F: Copy>(&self, settings: &LocalMlxSettings<F>) -> (models: Vec<
        LocalMlxLanguageModel<F>,
    >)
        ensures
            offered_views(models@) == offered(self.state@, settings.available_models@),
    {
        let ghost state = self.state@;
        let configured = &settings.available_models;
        let discovered = &self.state.discovered_models;
        let ghost found = state.discovered_models;
        let mut models: Vec<LocalMlxLanguageModel<F>> = Vec::new();
        let mut i: usize = 0;
        while i < configured.len()
            invariant
                i <= configured@.len(),
                state == self.state@,
                models@.len() == i,
                forall|k: int|
                    0 <= k < i ==> (#[trigger] models@[k])@ == configured_model(
                        state,
                        configured@[k],
                    ),
            decreases configured@.len() - i,
        {
            let config = &configured[i];
            let display_name = match &config.display_name {
                Some(name) => name.clone(),
                None => config.name.clone(),
            };
            let info = ModelInfo {
                id: config.name.clone(),
                display_name,
                max_tokens: config.max_tokens,
                supports_tools: true,
                supports_images: false,
                local_path: None,
            };
            models.push(
                LocalMlxLanguageModel::new(
                    info,
                    self.state.server_binary.clone(),
                    clone_strings(&self.state.server_args),
                    config.enable_thinking,
                    config.repeat_penalty,
                    config.top_p,
                    config.top_k,
                ),
            );
            i += 1;
        }
        let ghost first = offered_from_settings(state, configured@);
        assert(offered_views(models@) =~= first);
        assert(found.take(0) =~= Seq::empty());
        assert(first + Seq::<LanguageModelView<F>>::empty() =~= first);
        let mut k: usize = 0;
        while k < discovered.len()
            invariant
                k <= discovered@.len(),
                state == self.state@,
                found == state.discovered_models,
                *discovered == self.state.discovered_models,
                offered_views(models@) == first + offered_from_discovery(
                    state,
                    configured@,
                    found.take(k as int),
                ),
            decreases discovered@.len() - k,
        {
            let info = &discovered[k];
            let ghost next = found.take(k + 1);
            let ghost before = models@;
            proof {
                assert(next.drop_last() =~= found.take(k as int));
                assert(next.last() == info@);
            }
            if !names_model(configured, info.id.as_str()) {
                models.push(
                    LocalMlxLanguageModel::new(
                        info.clone(),
                        self.state.server_binary.clone(),
                        clone_strings(&self.state.server_args),
                        None,
                        None,
                        None,
                        None,
                    ),
                );
                assert(offered_views(models@) =~= offered_views(before).push(
                    discovered_model(state, info@),
                ));
                assert(offered_views(models@) =~= first + offered_from_discovery(
                    state,
                    configured@,
                    next,
                ));
            }
            k += 1;
        }
        assert(found.take(discovered@.len() as int) =~= found);
        models
    }

    /// The model that is used unless another is chosen: the first that is
    /// offered.
    pub fn default_model<F: Copy>(&self, settings: &LocalMlxSettings<F>) -> (model: Option<
        LocalMlxLanguageModel<F>,
    >)
        ensures
            match model {
                Some(model) => offered(self.state@, settings.available_models@).len() > 0 && model@
                    == offered(self.state@, settings.available_models@)[0],
                None => offered(self.state@, settings.available_models@).len() == 0,
            },
    {
        let mut models = self.provided_models(settings);
        assert(offered_views(models@).len() == models@.len());
        if models.len() > 0 {
            assert(offered_views(models@)[0] == models@[0]@);
            Some(models.swap_remove(0))
        } else {
            None
        }
    }

    /// The model that is used for quick answers: the default model.
    pub fn default_fast_model<F: Copy>(&self, settings: &LocalMlxSettings<F>) -> (model: Option<
        LocalMlxLanguageModel<F>,
    >)
        ensures
            match model {
                Some(model) => offered(self.state@, settings.available_models@).len() > 0 && model@
                    == offered(self.state@, settings.available_models@)[0],
                None => offered(self.state@, settings.available_models@).len() == 0,
            },
    {
        self.default_model(settings)
    }

    /// The models recommended: all that are offered.
    pub fn recommended_models<F: Copy>(&self, settings: &LocalMlxSettings<F>) -> (models: Vec<
        LocalMlxLanguageModel<F>,
    >)
        ensures
            offered_views(models@) == offered(self.state@, settings.available_models@),
    {
        self.provided_models(settings)
    }

    /// Whether models can be asked: the server runs, as `running` tells, and
    /// models were discovered.
    pub fn is_authenticated(&self, running: bool) -> (yes: bool)
        ensures
            yes == (running && self.state@.discovered_models.len() > 0),
    {
        self.state.is_authenticated(running)
    }
}

/// Whether the settings name the model `id`.
fn names_model<F>(models: &Vec<AvailableModel<F>>, id: &str) -> (yes: bool)
    ensures
        yes == is_configured(models@, id@),
{
    let mut i: usize = 0;
    while i < models.len()
        invariant
            i <= models@.len(),
            forall|k: int| 0 <= k < i ==> (#[trigger] models@[k]).name@ != id@,
        decreases models@.len() - i,
    {
        if same_str(models[i].name.as_str(), id) {
            assert(models@[i as int].name@ == id@);
            return true;
        }
        i += 1;
    }
    false
}

/// A model of the local server. `F` is the type of its real numbers.
#[derive(Debug)]
pub struct LocalMlxLanguageModel<F> {
    id: String,
    model_info: ModelInfo,
    request_limit: usize,
    server_binary: String,
    server_args: Vec<String>,
    enable_thinking: Option<bool>,
    repeat_penalty: Option<F>,
    top_p: Option<F>,
    top_k: Option<u32>,
}

impl<F> View for LocalMlxLanguageModel<F> {
    type V = LanguageModelView<F>;

    closed spec fn view(&self) -> LanguageModelView<F> {
        LanguageModelView {
            id: self.id@,
            info: self.model_info@,
            request_limit: self.request_limit,
            server_binary: self.server_binary@,
            server_args: strings(self.server_args@),
            enable_thinking: self.enable_thinking,
            repeat_penalty: self.repeat_penalty,
            top_p: self.top_p,
            top_k: self.top_k,
        }
    }
}

/// Where the server on `port` is.
pub open spec fn server_address(port: u16) -> Seq<char> {
    "http://127.0.0.1:"@ + decimal(port as nat)
}

/// Where the server on `port` takes chat requests.
pub open spec fn chat_address(port: u16) -> Seq<char> {
    server_address(port) + "/v1/chat/completions"@
}

/// Every model that the server lists is offered, once its list was noted.
pub proof fn fetched_models_are_offered<F>(
    started: StateView,
    fetched: Seq<ModelInfoView>,
    models: Seq<AvailableModel<F>>,
    k: int,
)
    requires
        0 <= k < fetched.len(),
    ensures
        ({
            let state = StateView { discovered_models: fetched, ..started };
            exists|i: int|
                0 <= i < offered(state, models).len() && (#[trigger] offered(state, models)[i]).id
                    == fetched[k].id
        }),
{
    let state = StateView { discovered_models: fetched, ..started };
    every_discovered_model_is_offered(state, models, k);
}

/// What is told where the server refuses a request.
pub open spec fn api_failure(status: Seq<char>, body: Seq<char>) -> Seq<char> {
    "Local MLX API error: HTTP "@ + status + " - "@ + body
}

impl<F> LocalMlxLanguageModel<F> {
    /// The model `model_info`, with the parameters that the settings tell for it.
    pub fn new(
        model_info: ModelInfo,
        server_binary: String,
        server_args: Vec<String>,
        enable_thinking: Option<bool>,
        repeat_penalty: Option<F>,
        top_p: Option<F>,
        top_k: Option<u32>,
    ) -> (model: Self)
        ensures
            model@ == (LanguageModelView {
                id: model_info@.id,
                info: model_info@,
                request_limit: 1,
                server_binary: server_binary@,
                server_args: strings(server_args@),
                enable_thinking,
                repeat_penalty,
                top_p,
                top_k,
            }),
    {
        LocalMlxLanguageModel {
            id: model_info.id.clone(),
            model_info,
            request_limit: 1,
            server_binary,
            server_args,
            enable_thinking,
            repeat_penalty,
            top_p,
            top_k,
        }
    }

    /// The model's identifier.
    pub fn id(&self) -> (id: String)
        ensures
            id@ == self@.id,
    {
        self.id.clone()
    }

    /// The name under which the model is shown.
    pub fn name(&self) -> (name: String)
        ensures
            name@ == self@.info.display_name,
    {
        self.model_info.display_name.clone()
    }

    /// The identifier of the model's provider.
    pub fn provider_id(&self) -> (id: String)
        ensures
            id@ == "local-mlx"@,
    {
        "local-mlx".to_owned()
    }

    /// The name of the model's provider.
    pub fn provider_name(&self) -> (name: String)
        ensures
            name@ == "Local MLX"@,
    {
        "Local MLX".to_owned()
    }

    /// The name of the model in reports on usage.
    pub fn telemetry_id(&self) -> (id: String)
        ensures
            id@ == "local-mlx/"@ + self@.info.id,
    {
        let mut id = "local-mlx/".to_owned();
        id.append(self.model_info.id.as_str());
        id
    }

    /// Whether the model can call tools.
    pub fn supports_tools(&self) -> (yes: bool)
        ensures
            yes == self@.info.supports_tools,
    {
        self.model_info.supports_tools
    }

    /// Whether the model can be told of the choice `choice`: of any.
    pub fn supports_tool_choice(&self, choice: LanguageModelToolChoice) -> (yes: bool)
        ensures
            yes,
    {
        match choice {
            LanguageModelToolChoice::Auto => true,
            LanguageModelToolChoice::Any => true,
            LanguageModelToolChoice::Never => true,
        }
    }

    /// Whether the model takes images.
    pub fn supports_images(&self) -> (yes: bool)
        ensures
            yes == self@.info.supports_images,
    {
        self.model_info.supports_images
    }

    /// The size of the model's context window.
    pub fn max_token_count(&self) -> (tokens: u64)
        ensures
            tokens == self@.info.max_tokens,
    {
        self.model_info.max_tokens
    }

    /// The most tokens that the model answers with: not limited.
    pub fn max_output_tokens(&self) -> (tokens: Option<u64>)
        ensures
            tokens is None,
    {
        None
    }

    /// How many requests may be under way at a time.
    pub fn request_limit(&self) -> (limit: usize)
        ensures
            limit == self@.request_limit,
    {
        self.request_limit
    }

    /// The program that the server is started with.
    pub fn server_binary(&self) -> (binary: String)
        ensures
            binary@ == self@.server_binary,
    {
        self.server_binary.clone()
    }

    /// The arguments that the server is started with.
    pub fn server_args(&self) -> (args: Vec<String>)
        ensures
            strings(args@) == self@.server_args,
    {
        clone_strings(&self.server_args)
    }
}

/// Whether `local` is the request to the server for `request`, to the model
/// `model`. The answer may fill the context window.
pub open spec fn is_request_to<F>(
    local: LocalMlxRequest<F>,
    model: LanguageModelView<F>,
    request: LanguageModelRequest<F>,
) -> bool {
    stands_for(
        local,
        request,
        model.info.id,
        model.info.max_tokens,
        model.enable_thinking,
        model.repeat_penalty,
        model.top_p,
        model.top_k,
    )
}

/// A request to be sent to the server by HTTP `POST`: where, with which headers,
/// and with which body.
#[derive(Debug)]
pub struct ChatCall<F> {
    pub url: String,
    pub content_type: String,
    pub accept: String,
    pub body: LocalMlxRequest<F>,
}

impl<F: Copy> LocalMlxLanguageModel<F> {
    /// What to send to the server, once it was made ready for the model, so that
    /// it answers `request`; what is told where it could not be made ready. The
    /// server counts as used.
    pub fn stream_completion(
        &self,
        request: LanguageModelRequest<F>,
        manager: &mut ProcessManager,
        ready: Result<(), String>,
        now: u128,
    ) -> (call: Result<ChatCall<F>, String>)
        ensures
            match call {
                Ok(call) => {
                    &&& ready is Ok
                    &&& final(manager)@ == (ManagerView { last_used: now, ..old(manager)@ })
                    &&& call.url@ == chat_address(old(manager)@.port)
                    &&& call.content_type@ == "application/json"@
                    &&& call.accept@ == "text/event-stream"@
                    &&& is_request_to(call.body, self@, request)
                },
                Err(error) => {
                    &&& ready is Err
                    &&& final(manager)@ == old(manager)@
                    &&& error@ == start_failure(ready->Err_0@)
                },
            },
    {
        match ready {
            Ok(_) => {},
            Err(error) => {
                return Err(start_error(error.as_str()));
            },
        }
        manager.touch(now);
        Ok(
            ChatCall {
                url: chat_url(manager.port()),
                content_type: "application/json".to_owned(),
                accept: "text/event-stream".to_owned(),
                body: LocalMlxRequest::from_language_model_request(
                    request,
                    self.model_info.id.as_str(),
                    self.model_info.max_tokens,
                    self.enable_thinking,
                    self.repeat_penalty,
                    self.top_p,
                    self.top_k,
                ),
            },
        )
    }
}

/// Where the server on `port` is.
pub fn server_url(port: u16) -> (url: String)
    ensures
        url@ == server_address(port),
{
    let mut url = "http://127.0.0.1:".to_owned();
    push_decimal(&mut url, port as u128);
    url
}

/// Where the server on `port` takes chat requests.
pub fn chat_url(port: u16) -> (url: String)
    ensures
        url@ == chat_address(port),
{
    let mut url = server_url(port);
    url.append("/v1/chat/completions");
    url
}

/// Whether the server takes a request, to which it replied with the status
/// `code`, shown as `status`; what is told where it does not, `body` being the
/// rest of its reply.
pub fn check_status(code: u16, status: &str, body: &str) -> (checked: Result<(), String>)
    ensures
        match checked {
            Ok(_) => is_success(code),
            Err(error) => !is_success(code) && error@ == api_failure(status@, body@),
        },
{
    if 200 <= code && code < 300 {
        return Ok(());
    }
    let mut error = "Local MLX API error: HTTP ".to_owned();
    error.append(status);
    error.append(" - ");
    error.append(body);
    Err(error)
}

/// What a line of the server's streamed reply comes to.
#[derive(Debug)]
pub enum StreamItem {
    /// Nothing.
    Skip,
    /// A piece of the answer, as JSON text.
    Chunk(String),
    /// The stream broke; what is told then.
    Broken(String),
}

/// What a [`StreamItem`] holds.
pub enum StreamItemView {
    Skip,
    Chunk(Seq<char>),
    Broken(Seq<char>),
}

impl View for StreamItem {
    type V = StreamItemView;

    open spec fn view(&self) -> StreamItemView {
        match *self {
            StreamItem::Skip => StreamItemView::Skip,
            StreamItem::Chunk(data) => StreamItemView::Chunk(data@),
            StreamItem::Broken(error) => StreamItemView::Broken(error@),
        }
    }
}

/// What a line of the stream comes to: data, unless it says that the stream is
/// done; any other line is skipped.
pub open spec fn item_of_line(line: Seq<char>) -> StreamItemView {
    let prefix = "data: "@;
    if !starts_with(line, prefix) || line.skip(prefix.len() as int) == "[DONE]"@ {
        StreamItemView::Skip
    } else {
        StreamItemView::Chunk(line.skip(prefix.len() as int))
    }
}

/// A line of data comes to that data, whatever it is but the mark of the end.
pub proof fn data_passes_through(data: Seq<char>)
    requires
        data != "[DONE]"@,
    ensures
        item_of_line("data: "@ + data) == StreamItemView::Chunk(data),
{
    let prefix = "data: "@;
    let line = prefix + data;
    assert(line.subrange(0, prefix.len() as int) =~= prefix);
    assert(line.skip(prefix.len() as int) =~= data);
}

/// What is to be made of a line of the stream, or of the error that reading it
/// met.
pub fn stream_item(line: Result<&str, &str>) -> (item: StreamItem)
    ensures
        item@ == (match line {
            Ok(line) => item_of_line(line@),
            Err(error) => StreamItemView::Broken("Stream error: "@ + error@),
        }),
{
    match line {
        Ok(line) => {
            let chars = chars_of(line);
            let prefix = "data: ";
            if !starts_with_text(&chars, prefix) {
                return StreamItem::Skip;
            }
            let data = slice_subrange(&chars, prefix.unicode_len(), chars.len());
            assert(data@ =~= line@.skip(prefix@.len() as int));
            if same_chars(data, &chars_of("[DONE]")) {
                StreamItem::Skip
            } else {
                StreamItem::Chunk(string_of(data))
            }
        },
        Err(error) => {
            let mut text = "Stream error: ".to_owned();
            text.append(error);
            StreamItem::Broken(text)
        },
    }
}

/// A function that a piece of an answer calls.
#[derive(Debug)]
pub struct ToolCallFunc {
    pub name: Option<String>,
    pub arguments: Option<String>,
}

/// A call of a tool in a piece of an answer.
#[derive(Debug)]
pub struct ToolCallDelta {
    pub index: usize,
    pub id: Option<String>,
    pub call_type: Option<String>,
    pub function: Option<ToolCallFunc>,
}

/// What a piece of an answer adds.
#[derive(Debug)]
pub struct Delta {
    pub content: Option<String>,
    pub tool_calls: Vec<ToolCallDelta>,
}

/// One of the alternatives in a piece of an answer.
#[derive(Debug)]
pub struct ChoiceDelta {
    pub delta: Delta,
    pub finish_reason: Option<String>,
}

/// A piece of an answer.
#[derive(Debug)]
pub struct Chunk {
    pub choices: Vec<ChoiceDelta>,
}

/// Why an answer ended.
#[derive(Clone, Copy, Debug, PartialEq, Eq, Structural)]
pub enum StopReason {
    EndTurn,
    MaxTokens,
    ToolUse,
}

/// What a piece of an answer means.
#[derive(Debug)]
pub enum LanguageModelCompletionEvent {
    Stop(StopReason),
    ToolUse(LanguageModelToolUse),
    Text(String),
}

/// What a [`LanguageModelToolUse`] holds, its input as compact JSON text.
pub struct ToolUseView {
    pub id: Seq<char>,
    pub name: Seq<char>,
    pub raw_input: Seq<char>,
    pub input: Seq<char>,
    pub is_input_complete: bool,
    pub thought_signature: Option<Seq<char>>,
}

impl View for LanguageModelToolUse {
    type V = ToolUseView;

    open spec fn view(&self) -> ToolUseView {
        ToolUseView {
            id: self.id@,
            name: self.name@,
            raw_input: self.raw_input@,
            input: json_text(self.input),
            is_input_complete: self.is_input_complete,
            thought_signature: opt_view(self.thought_signature),
        }
    }
}

/// What a [`LanguageModelCompletionEvent`] holds.
pub enum EventView {
    Stop(StopReason),
    ToolUse(ToolUseView),
    Text(Seq<char>),
}

impl View for LanguageModelCompletionEvent {
    type V = EventView;

    open spec fn view(&self) -> EventView {
        match *self {
            LanguageModelCompletionEvent::Stop(reason) => EventView::Stop(reason),
            LanguageModelCompletionEvent::ToolUse(tool_use) => EventView::ToolUse(tool_use@),
            LanguageModelCompletionEvent::Text(text) => EventView::Text(text@),
        }
    }
}

/// A call that the model made is sent back to it, in a later request, as it was
/// received: under its identifier, to the same function, with the arguments as
/// they were parsed.
pub proof fn a_call_is_sent_back_as_it_was_received(tool_use: LanguageModelToolUse)
    ensures
        call_of(tool_use).id == tool_use@.id,
        call_of(tool_use).name == tool_use@.name,
        call_of(tool_use).arguments == tool_use@.input,
{
}

/// The reason that the server's word `word` stands for.
pub open spec fn reason_of(word: Seq<char>) -> StopReason {
    if word == "length"@ {
        StopReason::MaxTokens
    } else if word == "tool_calls"@ {
        StopReason::ToolUse
    } else {
        StopReason::EndTurn
    }
}

/// Whether a call can be made: it has an identifier and names a function.
pub open spec fn is_callable(call: ToolCallDelta) -> bool {
    call.id is Some && call.function is Some && call.function->0.name is Some
}

/// The first of `calls`, from `from` on, that can be made.
pub open spec fn first_callable(calls: Seq<ToolCallDelta>, from: int) -> Option<int>
    decreases calls.len() - from,
{
    if from < 0 || from >= calls.len() {
        None
    } else if is_callable(calls[from]) {
        Some(from)
    } else {
        first_callable(calls, from + 1)
    }
}

/// The arguments of the function `function`, as the model wrote them; empty
/// where it wrote none.
pub open spec fn raw_arguments(function: ToolCallFunc) -> Seq<char> {
    match function.arguments {
        Some(arguments) => arguments@,
        None => Seq::empty(),
    }
}

/// The compact text of arguments that were parsed with the outcome `parsed`:
/// `null` where they are not JSON.
pub open spec fn input_text(parsed: Result<Seq<char>, Seq<char>>) -> Seq<char> {
    match parsed {
        Ok(text) => text,
        Err(_) => "null"@,
    }
}

/// The call of `name` with the arguments `arguments`, which parsed with the
/// outcome `parsed`.
pub open spec fn tool_use_of(
    id: Seq<char>,
    name: Seq<char>,
    arguments: Seq<char>,
    parsed: Result<Seq<char>, Seq<char>>,
) -> ToolUseView {
    ToolUseView {
        id,
        name,
        raw_input: arguments,
        input: input_text(parsed),
        is_input_complete: true,
        thought_signature: None,
    }
}

/// What a piece of an answer means. Its first alternative counts: the reason why
/// the answer ended, if there is one; else the first call that can be made; else
/// the text, which may be empty.
pub open spec fn event_of(chunk: Chunk) -> EventView {
    if chunk.choices@.len() == 0 {
        EventView::Text(Seq::empty())
    } else {
        let choice = chunk.choices@[0];
        let calls = choice.delta.tool_calls@;
        match choice.finish_reason {
            Some(word) => EventView::Stop(reason_of(word@)),
            None => match first_callable(calls, 0) {
                Some(i) => {
                    let function = calls[i].function->0;
                    let arguments = raw_arguments(function);
                    EventView::ToolUse(
                        tool_use_of(
                            calls[i].id->0@,
                            function.name->0@,
                            arguments,
                            parsed_json(arguments),
                        ),
                    )
                },
                None => EventView::Text(
                    match choice.delta.content {
                        Some(content) => content@,
                        None => Seq::empty(),
                    },
                ),
            },
        }
    }
}

/// The call of `name` with the arguments `arguments`; `input` is what they are
/// as JSON, where they are JSON.
pub fn tool_use(
    id: &str,
    name: &str,
    arguments: &str,
    input: Option<serde_json::Value>,
) -> (tool_use: LanguageModelToolUse)
    ensures
        tool_use@ == tool_use_of(
            id@,
            name@,
            arguments@,
            match input {
                Some(value) => Ok(json_text(value)),
                None => Err(Seq::empty()),
            },
        ),
{
    LanguageModelToolUse {
        id: id.to_owned(),
        name: name.to_owned(),
        raw_input: arguments.to_owned(),
        input: match input {
            Some(value) => value,
            None => null(),
        },
        is_input_complete: true,
        thought_signature: None,
    }
}

/// What a piece of an answer means.
pub fn parse_chunk(chunk: &Chunk) -> (event: LanguageModelCompletionEvent)
    ensures
        event@ == event_of(*chunk),
{
    if chunk.choices.len() == 0 {
        return LanguageModelCompletionEvent::Text(String::new());
    }
    let choice = &chunk.choices[0];
    if let Some(word) = &choice.finish_reason {
        let reason = if same_str(word.as_str(), "length") {
            StopReason::MaxTokens
        } else if same_str(word.as_str(), "tool_calls") {
            StopReason::ToolUse
        } else {
            StopReason::EndTurn
        };
        return LanguageModelCompletionEvent::Stop(reason);
    }
    let calls = &choice.delta.tool_calls;
    let mut i: usize = 0;
    while i < calls.len()
        invariant
            i <= calls@.len(),
            chunk.choices@.len() > 0,
            *choice == chunk.choices@[0],
            choice.finish_reason is None,
            *calls == choice.delta.tool_calls,
            first_callable(calls@, 0) == first_callable(calls@, i as int),
        decreases calls@.len() - i,
    {
        let call = &calls[i];
        if let Some(function) = &call.function {
            if let Some(name) = &function.name {
                if let Some(id) = &call.id {
                    let arguments = match &function.arguments {
                        Some(arguments) => arguments.clone(),
                        None => String::new(),
                    };
                    let input = match value_from_str(arguments.as_str()) {
                        Ok(value) => Some(value),
                        Err(_) => None,
                    };
                    return LanguageModelCompletionEvent::ToolUse(
                        tool_use(id.as_str(), name.as_str(), arguments.as_str(), input),
                    );
                }
            }
        }
        i += 1;
    }
    match &choice.delta.content {
        Some(content) => LanguageModelCompletionEvent::Text(content.clone()),
        None => LanguageModelCompletionEvent::Text(String::new()),
    }
}

/// What the user is told of the server's state.
pub open spec fn status_of(
    is_running: bool,
    is_starting: bool,
    port: u16,
    current_model: Option<Seq<char>>,
) -> Seq<char> {
    if is_running {
        "Running on port "@ + decimal(port as nat) + " (model: "@ + (match current_model {
            Some(model) => model,
            None => "unknown"@,
        }) + ")"@
    } else if is_starting {
        "Starting..."@
    } else {
        "Stopped"@
    }
}

/// What the user is told of the server's state.
pub fn status_text(
    is_running: bool,
    is_starting: bool,
    port: u16,
    current_model: Option<&str>,
) -> (text: String)
    ensures
        text@ == status_of(is_running, is_starting, port, opt_str_view(current_model)),
{
    if is_running {
        let mut text = "Running on port ".to_owned();
        push_decimal(&mut text, port as u128);
        text.append(" (model: ");
        match current_model {
            Some(model) => text.append(model),
            None => text.append("unknown"),
        }
        text.append(")");
        text
    } else if is_starting {
        "Starting...".to_owned()
    } else {
        "Stopped".to_owned()
    }
}

/// What the user is shown of the provider.
#[derive(Debug)]
pub struct ConfigurationView {
    pub title: String,
    pub status: String,
    pub command: String,
    pub discovered: String,
    /// The last error, shown in red.
    pub error: Option<String>,
    pub hint: String,
}

impl ConfigurationView {
    /// What the user is shown of a provider with the state `state`, whose server
    /// is as `status` tells.
    pub fn render(state: &State, status: &str) -> (view: Self)
        ensures
            view.title@ == "Local MLX Server"@,
            view.status@ == "Status: "@ + status@,
            view.command@ == "Command: "@ + state@.server_binary + " "@ + joined(
                state@.server_args,
                " "@,
            ),
            view.discovered@ == "Models discovered: "@ + decimal(state@.discovered_models.len()),
            opt_view(view.error) == (match state@.last_error {
                Some(error) => Some("Error: "@ + error),
                None => None,
            }),
            view.hint@
                == "Configure models in settings.json \u{2192} language_models.local_mlx.available_models"@,
    {
        let mut status_line = "Status: ".to_owned();
        status_line.append(status);
        let mut command = "Command: ".to_owned();
        command.append(state.server_binary.as_str());
        command.append(" ");
        command.append(join_strings(&state.server_args, " ").as_str());
        let mut discovered = "Models discovered: ".to_owned();
        push_decimal(&mut discovered, state.discovered_models.len() as u128);
        let error = match &state.last_error {
            Some(error) => {
                let mut line = "Error: ".to_owned();
                line.append(error.as_str());
                Some(line)
            },
            None => None,
        };
        ConfigurationView {
            title: "Local MLX Server".to_owned(),
            status: status_line,
            command,
            discovered,
            error,
            hint:
                "Configure models in settings.json \u{2192} language_models.local_mlx.available_models".to_owned(),
        }
    }
}

/// A model that the settings name is offered under its name, in its place, and with
/// each of the parameters that they tell for it. It is shown under the name to show,
/// where there is one, and is run by the server of the provider.
pub proof fn a_configured_model_is_offered_as_it_is_set<F>(
    state: StateView,
    models: Seq<AvailableModel<F>>,
    i: int,
)
    requires
        0 <= i < models.len(),
    ensures
        i < offered(state, models).len(),
        ({
            let model = offered(state, models)[i];
            let set = models[i];
            &&& model.id == set.name@
            &&& model.info.id == set.name@
            &&& set.display_name is Some ==> model.info.display_name == set.display_name->0@
            &&& set.display_name is None ==> model.info.display_name == set.name@
            &&& model.info.max_tokens == set.max_tokens
            &&& model.info.supports_tools
            &&& !model.info.supports_images
            &&& model.info.local_path is None
            &&& model.request_limit == 1
            &&& model.server_binary == state.server_binary
            &&& model.server_args == state.server_args
            &&& model.enable_thinking == set.enable_thinking
            &&& model.repeat_penalty == set.repeat_penalty
            &&& model.top_p == set.top_p
            &&& model.top_k == set.top_k
        }),
{
}

/// Behind the models that the settings name, the others that were discovered are
/// offered, each as it was discovered, without parameters and in their order.
pub proof fn the_other_models_are_offered_as_discovered<F>(
    state: StateView,
    models: Seq<AvailableModel<F>>,
    first: Seq<ModelInfoView>,
    second: Seq<ModelInfoView>,
    info: ModelInfoView,
)
    ensures
        offered(state, models).skip(models.len() as int) == offered_from_discovery(
            state,
            models,
            state.discovered_models,
        ),
        offered_from_discovery(state, models, first + second) == offered_from_discovery(
            state,
            models,
            first,
        ) + offered_from_discovery(state, models, second),
        offered_from_discovery(state, models, Seq::empty()) == Seq::<LanguageModelView<F>>::empty(),
        offered_from_discovery(state, models, seq![info]) == (if exists|i: int|
            0 <= i < models.len() && (#[trigger] models[i]).name@ == info.id {
            Seq::<LanguageModelView<F>>::empty()
        } else {
            seq![
                LanguageModelView {
                    id: info.id,
                    info,
                    request_limit: 1,
                    server_binary: state.server_binary,
                    server_args: state.server_args,
                    enable_thinking: None,
                    repeat_penalty: None,
                    top_p: None,
                    top_k: None,
                },
            ]
        }),
    decreases second.len(),
{
    assert(offered(state, models).skip(models.len() as int) =~= offered_from_discovery(
        state,
        models,
        state.discovered_models,
    ));
    let none = Seq::<ModelInfoView>::empty();
    assert(seq![info].drop_last() =~= none);
    assert(offered_from_discovery(state, models, none) =~= Seq::empty());
    assert(offered_from_discovery(state, models, seq![info]) =~= (if is_configured(
        models,
        info.id,
    ) {
        Seq::empty()
    } else {
        seq![discovered_model::<F>(state, info)]
    }));
    if second.len() == 0 {
        assert(first + second =~= first);
        assert(offered_from_discovery(state, models, first) + offered_from_discovery(
            state,
            models,
            second,
        ) =~= offered_from_discovery(state, models, first));
    } else {
        assert((first + second).drop_last() =~= first + second.drop_last());
        the_other_models_are_offered_as_discovered(
            state,
            models,
            first,
            second.drop_last(),
            info,
        );
        assert(offered_from_discovery(state, models, first + second) =~= offered_from_discovery(
            state,
            models,
            first,
        ) + offered_from_discovery(state, models, second));
    }
}

/// What the settings tell for a model reaches the server with every request to it:
/// the model's name, the limit, and each of its parameters.
pub proof fn settings_reach_the_server<F>(
    state: StateView,
    models: Seq<AvailableModel<F>>,
    i: int,
    local: LocalMlxRequest<F>,
    request: LanguageModelRequest<F>,
)
    requires
        0 <= i < models.len(),
        is_request_to(local, offered(state, models)[i], request),
    ensures
        local.model@ == models[i].name@,
        local.max_tokens == Some(models[i].max_tokens),
        local.repeat_penalty == models[i].repeat_penalty,
        local.top_p == models[i].top_p,
        local.top_k == models[i].top_k,
        models[i].enable_thinking is None ==> local.extra_body is None,
        models[i].enable_thinking is Some ==> local.extra_body is Some
            && local.extra_body->0.enable_thinking == models[i].enable_thinking,
        message_views(local.messages@) == sent_for_all(request.messages@),
{
    a_configured_model_is_offered_as_it_is_set(state, models, i);
    let model = offered(state, models)[i];
    a_request_tells_all_that_was_asked(
        local,
        request,
        model.info.id,
        model.info.max_tokens,
        model.enable_thinking,
        model.repeat_penalty,
        model.top_p,
        model.top_k,
    );
}

/// A request to a model goes by the model's name, limit and parameters.
pub proof fn a_request_goes_by_its_model<F>(
    local: LocalMlxRequest<F>,
    model: LanguageModelView<F>,
    request: LanguageModelRequest<F>,
)
    requires
        is_request_to(local, model, request),
    ensures
        stands_for(
            local,
            request,
            model.info.id,
            model.info.max_tokens,
            model.enable_thinking,
            model.repeat_penalty,
            model.top_p,
            model.top_k,
        ),
{
}

/// A piece of an answer that neither ends it nor makes a call is text: exactly the
/// characters of its content, white space included, and none where it has none.
pub proof fn text_passes_through_as_it_is(chunk: Chunk)
    requires
        chunk.choices@.len() > 0,
        chunk.choices@[0].finish_reason is None,
        forall|k: int|
            0 <= k < chunk.choices@[0].delta.tool_calls@.len() ==> {
                let call = #[trigger] chunk.choices@[0].delta.tool_calls@[k];
                call.id is None || call.function is None || call.function->0.name is None
            },
    ensures
        event_of(chunk) == EventView::Text(
            match chunk.choices@[0].delta.content {
                Some(content) => content@,
                None => Seq::empty(),
            },
        ),
{
    lemma_none_callable(chunk.choices@[0].delta.tool_calls@, 0);
}

proof fn lemma_none_callable(calls: Seq<ToolCallDelta>, from: int)
    requires
        0 <= from,
        forall|k: int|
            from <= k < calls.len() ==> {
                let call = #[trigger] calls[k];
                call.id is None || call.function is None || call.function->0.name is None
            },
    ensures
        first_callable(calls, from) is None,
    decreases calls.len() - from,
{
    if from < calls.len() {
        lemma_none_callable(calls, from + 1);
    }
}

/// The text that the pieces `chunks` of an answer come to, put together.
pub open spec fn answer_text(chunks: Seq<Chunk>) -> Seq<char>
    decreases chunks.len(),
{
    if chunks.len() == 0 {
        Seq::empty()
    } else {
        answer_text(chunks.drop_last()) + (match event_of(chunks.last()) {
            EventView::Text(text) => text,
            _ => Seq::empty(),
        })
    }
}

/// An answer reads as its pieces were written: where `parts` are the contents of the
/// pieces, none of which ends it or makes a call, the answer is the parts, one right
/// behind the other.
pub proof fn an_answer_reads_as_it_was_written(chunks: Seq<Chunk>, parts: Seq<Seq<char>>)
    requires
        chunks.len() == parts.len(),
        forall|i: int|
            0 <= i < chunks.len() ==> {
                let chunk = #[trigger] chunks[i];
                &&& chunk.choices@.len() > 0
                &&& chunk.choices@[0].finish_reason is None
                &&& chunk.choices@[0].delta.tool_calls@.len() == 0
                &&& chunk.choices@[0].delta.content is Some
                &&& chunk.choices@[0].delta.content->0@ == parts[i]
            },
    ensures
        answer_text(chunks) == parts.flatten(),
    decreases chunks.len(),
{
    if chunks.len() == 0 {
        assert(parts =~= Seq::empty());
        assert(parts.flatten() =~= Seq::empty());
    } else {
        let n = chunks.len() - 1;
        assert(chunks[n] == chunks.last());
        text_passes_through_as_it_is(chunks[n]);
        assert forall|i: int| 0 <= i < chunks.drop_last().len() implies {
            let chunk = #[trigger] chunks.drop_last()[i];
            &&& chunk.choices@.len() > 0
            &&& chunk.choices@[0].finish_reason is None
            &&& chunk.choices@[0].delta.tool_calls@.len() == 0
            &&& chunk.choices@[0].delta.content is Some
            &&& chunk.choices@[0].delta.content->0@ == parts.drop_last()[i]
        } by {
            assert(chunks.drop_last()[i] == chunks[i]);
        }
        an_answer_reads_as_it_was_written(chunks.drop_last(), parts.drop_last());
        assert(parts =~= parts.drop_last().push(parts.last()));
        parts.drop_last().lemma_flatten_push(parts.last());
    }
}

/// A piece that makes a call comes to that call: the first in it that has an
/// identifier and names a function. It is complete, with the arguments as the model
/// wrote them, empty where it wrote none, and as JSON, which is null where they are
/// not JSON.
pub proof fn a_call_passes_through_as_it_is(chunk: Chunk, i: int)
    requires
        chunk.choices@.len() > 0,
        chunk.choices@[0].finish_reason is None,
        0 <= i < chunk.choices@[0].delta.tool_calls@.len(),
        ({
            let call = chunk.choices@[0].delta.tool_calls@[i];
            call.id is Some && call.function is Some && call.function->0.name is Some
        }),
        forall|k: int|
            0 <= k < i ==> {
                let call = #[trigger] chunk.choices@[0].delta.tool_calls@[k];
                call.id is None || call.function is None || call.function->0.name is None
            },
    ensures
        ({
            let call = chunk.choices@[0].delta.tool_calls@[i];
            let arguments = match call.function->0.arguments {
                Some(arguments) => arguments@,
                None => Seq::empty(),
            };
            let made = event_of(chunk)->ToolUse_0;
            &&& event_of(chunk) is ToolUse
            &&& made.id == call.id->0@
            &&& made.name == call.function->0.name->0@
            &&& made.raw_input == arguments
            &&& made.input == (match parsed_json(arguments) {
                Ok(json) => json,
                Err(_) => "null"@,
            })
            &&& made.is_input_complete
            &&& made.thought_signature is None
        }),
{
    lemma_first_callable_is(chunk.choices@[0].delta.tool_calls@, 0, i);
}

proof fn lemma_first_callable_is(calls: Seq<ToolCallDelta>, from: int, i: int)
    requires
        0 <= from <= i < calls.len(),
        is_callable(calls[i]),
        forall|k: int|
            from <= k < i ==> {
                let call = #[trigger] calls[k];
                call.id is None || call.function is None || call.function->0.name is None
            },
    ensures
        first_callable(calls, from) == Some(i),
    decreases i - from,
{
    if from < i {
        lemma_first_callable_is(calls, from + 1, i);
    }
}

/// A piece with a reason why the answer ended ends it, whatever else is in it: for
/// its length, for a tool to be used, or because all is said. A piece without
/// alternatives is empty text. Only the first alternative counts.
pub proof fn a_reason_ends_the_answer(chunk: Chunk, other: Chunk)
    ensures
        chunk.choices@.len() == 0 ==> event_of(chunk) == EventView::Text(Seq::empty()),
        chunk.choices@.len() > 0 && chunk.choices@[0].finish_reason is Some ==> {
            let word = chunk.choices@[0].finish_reason->0@;
            &&& event_of(chunk) is Stop
            &&& word == "length"@ ==> event_of(chunk)->Stop_0 == StopReason::MaxTokens
            &&& word == "tool_calls"@ ==> event_of(chunk)->Stop_0 == StopReason::ToolUse
            &&& word != "length"@ && word != "tool_calls"@ ==> event_of(chunk)->Stop_0
                == StopReason::EndTurn
        },
        chunk.choices@.len() > 0 && other.choices@.len() > 0 && chunk.choices@[0]
            == other.choices@[0] ==> event_of(chunk) == event_of(other),
{
    reveal_strlit("length");
    reveal_strlit("tool_calls");
    assert("length"@.len() != "tool_calls"@.len());
}

/// A call is made up of what is told of it; what is not JSON is null.
pub proof fn a_call_is_what_is_told_of_it(
    id: Seq<char>,
    name: Seq<char>,
    arguments: Seq<char>,
    parsed: Result<Seq<char>, Seq<char>>,
)
    ensures
        ({
            let made = tool_use_of(id, name, arguments, parsed);
            &&& made.id == id
            &&& made.name == name
            &&& made.raw_input == arguments
            &&& parsed is Ok ==> made.input == parsed->Ok_0
            &&& parsed is Err ==> made.input == "null"@
            &&& made.is_input_complete
            &&& made.thought_signature is None
        }),
{
}

/// A line of the stream that is not data is skipped, and so is the mark of the end.
pub proof fn other_lines_are_skipped(line: Seq<char>)
    ensures
        item_of_line("data: "@ + "[DONE]"@) == StreamItemView::Skip,
        (forall|data: Seq<char>| line != #[trigger] ("data: "@ + data)) ==> item_of_line(line)
            == StreamItemView::Skip,
{
    let prefix = "data: "@;
    let done = prefix + "[DONE]"@;
    assert(done.subrange(0, prefix.len() as int) =~= prefix);
    assert(done.skip(prefix.len() as int) =~= "[DONE]"@);
    if starts_with(line, prefix) {
        what_stands_is_a_part(line, prefix, 0);
        assert(line == prefix + line.skip(prefix.len() as int));
    }
}

/// The addresses of the server, and what is told where it does not start or refuses
/// a request.
pub proof fn addresses_and_failures_are_written_so(
    port: u16,
    error: Seq<char>,
    status: Seq<char>,
    body: Seq<char>,
)
    ensures
        server_address(port) == "http://127.0.0.1:"@ + decimal(port as nat),
        chat_address(port) == "http://127.0.0.1:"@ + decimal(port as nat)
            + "/v1/chat/completions"@,
        models_address(server_address(port)) == "http://127.0.0.1:"@ + decimal(port as nat)
            + "/v1/models"@,
        start_failure(error) == "Failed to start local MLX server: "@ + error,
        api_failure(status, body) == "Local MLX API error: HTTP "@ + status + " - "@ + body,
        default_args() == seq!["--port"@, "{port}"@, "--host"@, "127.0.0.1"@],
{
}

/// The user is told that the server runs, where and with which model, that it is
/// starting, or that it is stopped.
pub proof fn the_user_is_told_the_state(
    is_starting: bool,
    port: u16,
    model: Seq<char>,
)
    ensures
        status_of(true, is_starting, port, Some(model)) == "Running on port "@ + decimal(
            port as nat,
        ) + " (model: "@ + model + ")"@,
        status_of(true, is_starting, port, None) == status_of(
            true,
            is_starting,
            port,
            Some("unknown"@),
        ),
        status_of(false, true, port, Some(model)) == "Starting..."@,
        status_of(false, false, port, Some(model)) == "Stopped"@,
        status_of(false, is_starting, port, None) == status_of(
            false,
            is_starting,
            port,
            Some(model),
        ),
{
}

/// What is told of a state, of models and of what was streamed is what they hold.
pub proof fn states_and_events_hold_what_there_is<F>(
    state: State,
    models: Seq<LocalMlxLanguageModel<F>>,
    i: int,
    item: StreamItem,
    event: LanguageModelCompletionEvent,
    made: LanguageModelToolUse,
)
    ensures
        state@.discovered_models == model_views(state.discovered_models@),
        state@.server_port == state.server_port,
        state@.server_binary == state.server_binary@,
        state@.server_args == strings(state.server_args@),
        state@.idle_timeout_seconds == state.idle_timeout_seconds,
        state@.last_error == opt_view(state.last_error),
        offered_views(models).len() == models.len(),
        0 <= i < models.len() ==> offered_views(models)[i] == models[i]@,
        item is Skip <==> item@ is Skip,
        item is Chunk <==> item@ is Chunk,
        item is Chunk ==> item@->Chunk_0 == item->Chunk_0@,
        item is Broken ==> item@->Broken_0 == item->Broken_0@,
        event is Stop ==> event@ == EventView::Stop(event->Stop_0),
        event is ToolUse ==> event@ == EventView::ToolUse(event->ToolUse_0@),
        event is Text ==> event@ == EventView::Text(event->Text_0@),
        made@.id == made.id@,
        made@.name == made.name@,
        made@.raw_input == made.raw_input@,
        made@.input == json_text(made.input),
        made@.is_input_complete == made.is_input_complete,
        made@.thought_signature == opt_view(made.thought_signature),
{
}

} // verus!
