//! Every rewrite the bridge performs on the conversation between the editor
//! and the language server, with no I/O.

use vstd::prelude::*;
use crate::json::{
    as_int, as_items, as_text, at, at_index, element, field, is_text, make_object1, make_object3,
    member, number_text, object1, object3, opt_as_array, opt_as_i64, opt_as_str, opt_copy,
    opt_is_str, opt_model, settable, with_field, items_model, duplicate_items, Json, JsonModel,
};
use crate::table::Table;
use crate::text::str_eq;

verus! {

/// The command the VS Code extension registers client-side. The bridge takes
/// the same name so a code lens the server emits works unchanged.
pub const SHOW_RESOURCE: &'static str = "daml.showResource";

/// Something the bridge has to do after reading a message.
pub enum Outbound {
    ToServer(Json),
    ToClient(Json),
    /// The editor asked for a script result to be displayed.
    Show { title: String, uri: String },
    /// The server rendered a virtual resource.
    ResourceChanged { uri: String, contents: String },
    /// The server started recomputing a virtual resource.
    ResourceProgress { uri: String },
}

/// The model of an [`Outbound`].
pub enum OutboundModel {
    ToServer(JsonModel),
    ToClient(JsonModel),
    Show { title: Seq<char>, uri: Seq<char> },
    ResourceChanged { uri: Seq<char>, contents: Seq<char> },
    ResourceProgress { uri: Seq<char> },
}

impl View for Outbound {
    type V = OutboundModel;

    open spec fn view(&self) -> OutboundModel {
        match self {
            Outbound::ToServer(m) => OutboundModel::ToServer(m@),
            Outbound::ToClient(m) => OutboundModel::ToClient(m@),
            Outbound::Show { title, uri } => OutboundModel::Show { title: title@, uri: uri@ },
            Outbound::ResourceChanged { uri, contents } => OutboundModel::ResourceChanged {
                uri: uri@,
                contents: contents@,
            },
            Outbound::ResourceProgress { uri } => OutboundModel::ResourceProgress { uri: uri@ },
        }
    }
}

/// The models of a list of outbound actions.
pub open spec fn outs_model(out: Seq<Outbound>) -> Seq<OutboundModel> {
    out.map_values(|o: Outbound| o@)
}

/// What a request the client sent is waiting for, so the matching response
/// can be rewritten when it arrives.
enum Pending {
    Initialize,
    CodeLens { document: String },
    CodeAction { document: String, range: Json },
}

/// The model of a pending request.
pub enum PendingModel {
    Initialize,
    CodeLens { document: Seq<char> },
    CodeAction { document: Seq<char>, range: JsonModel },
}

impl View for Pending {
    type V = PendingModel;

    closed spec fn view(&self) -> PendingModel {
        match self {
            Pending::Initialize => PendingModel::Initialize,
            Pending::CodeLens { document } => PendingModel::CodeLens { document: document@ },
            Pending::CodeAction { document, range } => PendingModel::CodeAction {
                document: document@,
                range: range@,
            },
        }
    }
}

/// The interceptor's state: the requests awaiting a response, keyed by id,
/// and the code lenses last reported for each document.
pub struct InterceptorModel {
    pub pending: Map<Seq<char>, PendingModel>,
    pub lenses: Map<Seq<char>, Seq<JsonModel>>,
}

/// The rewriting state machine between the editor and the server.
pub struct Interceptor {
    pending: Table<Pending>,
    /// Code lenses per document, kept so code actions can be synthesised from
    /// them. Zed's code lens support is opt-in; code actions always work.
    lenses: Table<Vec<Json>>,
}

// ---------------------------------------------------------------- the model of a message

pub open spec fn show_resource() -> Seq<char> {
    SHOW_RESOURCE@
}

/// `msg["method"].as_str().unwrap_or_default()`.
pub open spec fn method_of(msg: JsonModel) -> Seq<char> {
    match as_text(field(msg, "method"@)) {
        Some(m) => m,
        None => Seq::empty(),
    }
}

/// A request id as a key: numbers and strings, normalised to text.
pub open spec fn id_key(msg: JsonModel) -> Option<Seq<char>> {
    match field(msg, "id"@) {
        JsonModel::Number(n) => Some(number_text(n)),
        JsonModel::String(s) => Some(s),
        _ => None,
    }
}

/// `msg["params"]["textDocument"]["uri"]`, or empty text.
pub open spec fn document_of(msg: JsonModel) -> Seq<char> {
    match as_text(field(field(field(msg, "params"@), "textDocument"@), "uri"@)) {
        Some(u) => u,
        None => Seq::empty(),
    }
}

/// `value.as_str().unwrap_or(default)`.
pub open spec fn text_or(m: JsonModel, default: Seq<char>) -> Seq<char> {
    match as_text(m) {
        Some(t) => t,
        None => default,
    }
}

/// The editor asked the bridge's own command to run.
pub open spec fn is_show_command(msg: JsonModel) -> bool {
    method_of(msg) == "workspace/executeCommand"@ && is_text(
        field(field(msg, "params"@), "command"@),
        show_resource(),
    )
}

/// The arguments of a command request.
pub open spec fn command_args(msg: JsonModel) -> Seq<JsonModel> {
    match as_items(field(field(msg, "params"@), "arguments"@)) {
        Some(a) => a,
        None => Seq::empty(),
    }
}

/// The title a show request carries, or a default.
pub open spec fn show_title(args: Seq<JsonModel>) -> Seq<char> {
    if args.len() > 0 {
        text_or(args[0], "Script results"@)
    } else {
        "Script results"@
    }
}

/// The resource a show request names, or empty text.
pub open spec fn show_uri(args: Seq<JsonModel>) -> Seq<char> {
    if args.len() > 1 {
        text_or(args[1], Seq::empty())
    } else {
        Seq::empty()
    }
}

/// The empty success response to a request with the given id.
pub open spec fn null_reply(id: JsonModel) -> JsonModel {
    object3("jsonrpc"@, JsonModel::String("2.0"@), "id"@, id, "result"@, JsonModel::Null)
}

/// What a request from the editor will wait for, if its response is one the
/// bridge rewrites.
pub open spec fn pending_for(msg: JsonModel) -> Option<PendingModel> {
    let method = method_of(msg);
    if method == "initialize"@ {
        Some(PendingModel::Initialize)
    } else if method == "textDocument/codeLens"@ {
        Some(PendingModel::CodeLens { document: document_of(msg) })
    } else if method == "textDocument/codeAction"@ {
        Some(
            PendingModel::CodeAction {
                document: document_of(msg),
                range: field(field(msg, "params"@), "range"@),
            },
        )
    } else {
        None
    }
}

/// The editor-to-server step: the new state and what to do.
pub open spec fn client_step(st: InterceptorModel, msg: JsonModel) -> (
    InterceptorModel,
    Seq<OutboundModel>,
) {
    if is_show_command(msg) {
        let args = command_args(msg);
        let show = OutboundModel::Show { title: show_title(args), uri: show_uri(args) };
        let reply = match member(msg, "id"@) {
            Some(id) => seq![OutboundModel::ToClient(null_reply(id))],
            None => Seq::empty(),
        };
        (st, seq![show] + reply)
    } else {
        let st2 = match (id_key(msg), pending_for(msg)) {
            (Some(id), Some(p)) => InterceptorModel {
                pending: st.pending.insert(id, p),
                lenses: st.lenses,
            },
            _ => st,
        };
        (st2, seq![OutboundModel::ToServer(msg)])
    }
}

/// The commands an `initialize` response advertises.
pub open spec fn advertised_commands(msg: JsonModel) -> Seq<JsonModel> {
    match as_items(
        field(
            field(field(field(msg, "result"@), "capabilities"@), "executeCommandProvider"@),
            "commands"@,
        ),
    ) {
        Some(c) => c,
        None => Seq::empty(),
    }
}

/// Some command in the list is the bridge's.
pub open spec fn lists_show(commands: Seq<JsonModel>) -> bool {
    exists|i: int| 0 <= i < commands.len() && is_text(#[trigger] commands[i], show_resource())
}

/// Writing the provider into the response is defined: serde_json panics when
/// `result` or `result.capabilities` is present but is neither an object nor
/// `null`.
pub open spec fn advertise_defined(msg: JsonModel) -> bool {
    lists_show(advertised_commands(msg)) || (settable(msg) && settable(field(msg, "result"@))
        && settable(field(field(msg, "result"@), "capabilities"@)))
}

/// The `initialize` response with the bridge's command added to the
/// advertised commands, unless it is there already.
pub open spec fn advertise(msg: JsonModel) -> JsonModel {
    let commands = advertised_commands(msg);
    if lists_show(commands) {
        msg
    } else {
        let result = field(msg, "result"@);
        let caps = field(result, "capabilities"@);
        let provider = object1(
            "commands"@,
            JsonModel::Array(commands.push(JsonModel::String(show_resource()))),
        );
        with_field(
            msg,
            "result"@,
            with_field(result, "capabilities"@, with_field(caps, "executeCommandProvider"@, provider)),
        )
    }
}

/// `range[edge]["line"].as_i64().unwrap_or(-1)`.
pub open spec fn line_of(range: JsonModel, edge: Seq<char>) -> int {
    match as_int(field(field(range, edge), "line"@)) {
        Some(n) => n,
        None => -1,
    }
}

/// A lens applies if the requested range touches any of its lines.
pub open spec fn lens_intersects(lens: JsonModel, range: JsonModel) -> bool {
    let lens_range = field(lens, "range"@);
    line_of(lens_range, "start"@) <= line_of(range, "end"@) && line_of(range, "start"@)
        <= line_of(lens_range, "end"@)
}

/// A lens is turned into an action when it runs the bridge's command and its
/// lines meet the requested range.
pub open spec fn offers_action(lens: JsonModel, range: JsonModel) -> bool {
    is_text(field(field(lens, "command"@), "command"@), show_resource()) && lens_intersects(
        lens,
        range,
    )
}

/// The code action offered for a lens.
pub open spec fn action_for(lens: JsonModel) -> JsonModel {
    let command = field(lens, "command"@);
    let title = text_or(element(field(command, "arguments"@), 0), "Script results"@);
    object3(
        "title"@,
        JsonModel::String("Show script results: "@ + title),
        "kind"@,
        JsonModel::String("source.daml.showResource"@),
        "command"@,
        command,
    )
}

/// The actions offered for a document's lenses, in lens order.
pub open spec fn actions_for(lenses: Seq<JsonModel>, range: JsonModel) -> Seq<JsonModel>
    decreases lenses.len(),
{
    if lenses.len() == 0 {
        Seq::empty()
    } else {
        let rest = actions_for(lenses.drop_last(), range);
        if offers_action(lenses.last(), range) {
            rest.push(action_for(lenses.last()))
        } else {
            rest
        }
    }
}

/// A code action response with the actions for the remembered lenses of
/// `document` appended; untouched when no lenses are remembered for it.
pub open spec fn inject(
    lenses: Map<Seq<char>, Seq<JsonModel>>,
    msg: JsonModel,
    document: Seq<char>,
    range: JsonModel,
) -> JsonModel {
    if !lenses.dom().contains(document) {
        msg
    } else {
        let base = match as_items(field(msg, "result"@)) {
            Some(a) => a,
            None => Seq::empty(),
        };
        with_field(msg, "result"@, JsonModel::Array(base + actions_for(lenses[document], range)))
    }
}

/// The server's method, when it names one of the virtual resource
/// notifications.
pub open spec fn server_method(msg: JsonModel) -> Option<Seq<char>> {
    as_text(field(msg, "method"@))
}

pub open spec fn param_text(msg: JsonModel, key: Seq<char>) -> Seq<char> {
    text_or(field(field(msg, "params"@), key), Seq::empty())
}

/// A notification about a virtual resource, which the bridge absorbs.
pub open spec fn is_resource_notification(msg: JsonModel) -> bool {
    server_method(msg) == Some("daml/virtualResource/didChange"@) || server_method(msg) == Some(
        "daml/virtualResource/didProgress"@,
    ) || server_method(msg) == Some("daml/virtualResource/note"@)
}

/// The server-to-editor step: the new state and what to do.
pub open spec fn server_step(st: InterceptorModel, msg: JsonModel) -> (
    InterceptorModel,
    Seq<OutboundModel>,
) {
    let method = server_method(msg);
    if method == Some("daml/virtualResource/didChange"@) {
        (
            st,
            seq![
                OutboundModel::ResourceChanged {
                    uri: param_text(msg, "uri"@),
                    contents: param_text(msg, "contents"@),
                },
            ],
        )
    } else if method == Some("daml/virtualResource/didProgress"@) || method == Some(
        "daml/virtualResource/note"@,
    ) {
        (st, seq![OutboundModel::ResourceProgress { uri: param_text(msg, "uri"@) }])
    } else {
        match id_key(msg) {
            None => (st, seq![OutboundModel::ToClient(msg)]),
            Some(id) => if !st.pending.dom().contains(id) {
                (st, seq![OutboundModel::ToClient(msg)])
            } else {
                let st1 = InterceptorModel { pending: st.pending.remove(id), lenses: st.lenses };
                match st.pending[id] {
                    PendingModel::Initialize => (st1, seq![OutboundModel::ToClient(advertise(msg))]),
                    PendingModel::CodeLens { document } => {
                        let st2 = match as_items(field(msg, "result"@)) {
                            Some(ls) => InterceptorModel {
                                pending: st1.pending,
                                lenses: st1.lenses.insert(document, ls),
                            },
                            None => st1,
                        };
                        (st2, seq![OutboundModel::ToClient(msg)])
                    },
                    PendingModel::CodeAction { document, range } => (
                        st1,
                        seq![OutboundModel::ToClient(inject(st.lenses, msg, document, range))],
                    ),
                }
            },
        }
    }
}

/// The server's message can be handled: adding the command to an
/// `initialize` response needs its `result` and `result.capabilities` to be
/// objects or `null`, as indexing a JSON value for writing panics on anything
/// else. No other message is refused.
pub open spec fn server_message_ok(st: InterceptorModel, msg: JsonModel) -> bool {
    !is_resource_notification(msg) ==> match id_key(msg) {
        Some(id) => (st.pending.dom().contains(id) && st.pending[id] is Initialize)
            ==> advertise_defined(msg),
        None => true,
    }
}


// ---------------------------------------------------------------- the state machine

impl View for Interceptor {
    type V = InterceptorModel;

    closed spec fn view(&self) -> InterceptorModel {
        InterceptorModel {
            pending: self.pending.map().map_values(|p: Pending| p@),
            lenses: self.lenses.map().map_values(|v: Vec<Json>| items_model(v@)),
        }
    }
}

/// A request id as a key.
fn id_key_exec(msg: &Json) -> (r: Option<String>)
    ensures
        match id_key(msg@) {
            Some(k) => r matches Some(s) && s@ == k,
            None => r is None,
        },
{
    match msg.get("id") {
        Some(Json::Number(n)) => Some(n.text()),
        Some(Json::String(s)) => Some(s.clone()),
        _ => None,
    }
}

/// `msg["params"]["textDocument"]["uri"]`, or empty text.
fn document_of_exec(msg: &Json) -> (r: String)
    ensures
        r@ == document_of(msg@),
{
    text_or_empty(at(at(at(Some(msg), "params"), "textDocument"), "uri"))
}

/// `value.as_str().unwrap_or(default)`.
fn text_or_exec(o: Option<&Json>, default: &str) -> (r: String)
    ensures
        r@ == text_or(opt_model(o), default@),
{
    crate::json::text_or(o, default)
}

/// `value.as_str().unwrap_or_default()`.
fn text_or_empty(o: Option<&Json>) -> (r: String)
    ensures
        r@ == text_or(opt_model(o), Seq::empty()),
{
    match opt_as_str(o) {
        Some(s) => s.clone(),
        None => String::new(),
    }
}

/// `range[edge]["line"].as_i64().unwrap_or(-1)`.
fn line_of_exec(range: Option<&Json>, edge: &str) -> (r: i64)
    ensures
        r == line_of(opt_model(range), edge@),
{
    match opt_as_i64(at(at(range, edge), "line")) {
        Some(n) => n,
        None => -1,
    }
}

/// Whether a lens is turned into an action for the requested range.
fn offers_action_exec(lens: &Json, range: &Json) -> (r: bool)
    ensures
        r == offers_action(lens@, range@),
{
    if !opt_is_str(at(at(Some(lens), "command"), "command"), SHOW_RESOURCE) {
        return false;
    }
    let lens_range = at(Some(lens), "range");
    let lens_start = line_of_exec(lens_range, "start");
    let lens_end = line_of_exec(lens_range, "end");
    let want_start = line_of_exec(Some(range), "start");
    let want_end = line_of_exec(Some(range), "end");
    lens_start <= want_end && want_start <= lens_end
}

/// The code action offered for a lens.
fn action_for_exec(lens: &Json) -> (r: Json)
    ensures
        r@ == action_for(lens@),
{
    let command = at(Some(lens), "command");
    let title = text_or_exec(at_index(at(command, "arguments"), 0), "Script results");
    let mut text = crate::text::chars_of("Show script results: ");
    crate::text::append_str(&mut text, title.as_str());
    let title_text = crate::text::string_of(text.as_slice());
    make_object3(
        "title",
        Json::String(title_text),
        "kind",
        Json::String("source.daml.showResource".to_owned()),
        "command",
        opt_copy(command),
    )
}

/// Zed will not run a command the server does not claim to support.
fn advertise_command(msg: Json) -> (r: Json)
    requires
        advertise_defined(msg@),
    ensures
        r@ == advertise(msg@),
{
    let ghost m = msg@;
    let found = opt_as_array(
        at(at(at(at(Some(&msg), "result"), "capabilities"), "executeCommandProvider"), "commands"),
    );
    let mut commands = match found {
        Some(c) => duplicate_items(c),
        None => Vec::new(),
    };
    proof {
        crate::json::lemma_items_model(commands@);
        if found is Some {
            crate::json::lemma_items_model_eq(commands@, found->0@);
        }
        assert(items_model(commands@) =~= advertised_commands(m));
    }
    let mut i: usize = 0;
    while i < commands.len()
        invariant
            0 <= i <= commands@.len(),
            msg@ == m,
            items_model(commands@) == advertised_commands(m),
            forall|j: int| 0 <= j < i ==> !is_text(#[trigger] advertised_commands(m)[j], show_resource()),
        decreases commands@.len() - i,
    {
        proof {
            crate::json::lemma_items_model(commands@);
        }
        if commands[i].is_str(SHOW_RESOURCE) {
            proof {
                assert(is_text(advertised_commands(m)[i as int], show_resource()));
            }
            return msg;
        }
        i += 1;
    }
    proof {
        crate::json::lemma_items_model(commands@);
    }
    let ghost before = commands@;
    commands.push(Json::String(SHOW_RESOURCE.to_owned()));
    proof {
        crate::json::lemma_items_model(commands@);
        crate::json::lemma_items_model(before);
        assert(items_model(commands@) =~= advertised_commands(m).push(JsonModel::String(show_resource())));
    }
    let provider = make_object1("commands", Json::Array(commands));
    let result = opt_copy(at(Some(&msg), "result"));
    let caps = opt_copy(at(Some(&result), "capabilities"));
    let caps = caps.with_field("executeCommandProvider", provider);
    let result = result.with_field("capabilities", caps);
    msg.with_field("result", result)
}

impl Interceptor {
    /// The state is consistent: no request id or document is held twice.
    pub closed spec fn wf(&self) -> bool {
        self.pending.wf() && self.lenses.wf()
    }

    /// An interceptor that knows of no request and no lens.
    pub fn new() -> (r: Interceptor)
        ensures
            r.wf(),
            r@.pending == Map::<Seq<char>, PendingModel>::empty(),
            r@.lenses == Map::<Seq<char>, Seq<JsonModel>>::empty(),
    {
        let r = Interceptor { pending: Table::new(), lenses: Table::new() };
        assert(r@.pending =~= Map::<Seq<char>, PendingModel>::empty());
        assert(r@.lenses =~= Map::<Seq<char>, Seq<JsonModel>>::empty());
        r
    }

    /// Handles a message from the editor.
    pub fn on_client_message(&mut self, msg: Json) -> (out: Vec<Outbound>)
        requires
            old(self).wf(),
        ensures
            final(self).wf(),
            (final(self)@, outs_model(out@)) == client_step(old(self)@, msg@),
    {
        let ghost st = self@;
        let is_execute = match opt_as_str(at(Some(&msg), "method")) {
            Some(m) => str_eq(m.as_str(), "workspace/executeCommand"),
            None => false,
        };
        proof {
            reveal_strlit("workspace/executeCommand");
            reveal_strlit("");
            assert("workspace/executeCommand"@.len() == 24);
            assert(is_execute == (method_of(msg@) == "workspace/executeCommand"@));
        }
        if is_execute && opt_is_str(at(at(Some(&msg), "params"), "command"), SHOW_RESOURCE) {
            let args = opt_as_array(at(at(Some(&msg), "params"), "arguments"));
            let ghost argm = command_args(msg@);
            let (title, uri) = match args {
                Some(a) => {
                    proof {
                        crate::json::lemma_items_model(a@);
                    }
                    let title = if a.len() > 0 {
                        text_or_exec(Some(&a[0]), "Script results")
                    } else {
                        "Script results".to_owned()
                    };
                    let uri = if a.len() > 1 {
                        text_or_exec(Some(&a[1]), "")
                    } else {
                        "".to_owned()
                    };
                    (title, uri)
                },
                None => ("Script results".to_owned(), "".to_owned()),
            };
            assert(title@ == show_title(argm));
            assert(uri@ == show_uri(argm));
            let mut out: Vec<Outbound> = Vec::new();
            out.push(Outbound::Show { title, uri });
            match msg.get("id") {
                Some(id) => {
                    let reply = make_object3(
                        "jsonrpc",
                        Json::String("2.0".to_owned()),
                        "id",
                        id.duplicate(),
                        "result",
                        Json::Null,
                    );
                    out.push(Outbound::ToClient(reply));
                },
                None => {},
            }
            let ghost expected = client_step(st, msg@);
            assert(outs_model(out@) =~= expected.1);
            return out;
        }
        match id_key_exec(&msg) {
            Some(id) => {
                let method = match opt_as_str(at(Some(&msg), "method")) {
                    Some(m) => m.clone(),
                    None => "".to_owned(),
                };
                assert(method@ == method_of(msg@));
                let pending = if str_eq(method.as_str(), "initialize") {
                    Some(Pending::Initialize)
                } else if str_eq(method.as_str(), "textDocument/codeLens") {
                    Some(Pending::CodeLens { document: document_of_exec(&msg) })
                } else if str_eq(method.as_str(), "textDocument/codeAction") {
                    Some(
                        Pending::CodeAction {
                            document: document_of_exec(&msg),
                            range: opt_copy(at(at(Some(&msg), "params"), "range")),
                        },
                    )
                } else {
                    None
                };
                assert(match pending { Some(p) => pending_for(msg@) == Some(p@), None => pending_for(msg@) is None });
                match pending {
                    Some(p) => {
                        let ghost pm = p@;
                        self.pending.insert(id, p);
                        assert(self@.pending =~= st.pending.insert(id@, pm));
                        assert(self@.lenses =~= st.lenses);
                    },
                    None => {},
                }
            },
            None => {},
        }
        assert(is_execute == (method_of(msg@) == "workspace/executeCommand"@));
        assert(!is_show_command(msg@));
        let mut out: Vec<Outbound> = Vec::new();
        out.push(Outbound::ToServer(msg));
        assert(outs_model(out@) =~= client_step(st, msg@).1);
        out
    }
}

impl Interceptor {
    /// The response to a code action request, with an action for each
    /// remembered lens of `document` that runs the bridge's command on the
    /// requested lines.
    fn inject_actions(&self, msg: Json, document: &str, range: &Json) -> (r: Json)
        requires
            self.wf(),
            settable(msg@),
        ensures
            r@ == inject(self@.lenses, msg@, document@, range@),
    {
        let ghost m = msg@;
        let lenses = match self.lenses.get(document) {
            Some(l) => l,
            None => {
                return msg;
            },
        };
        let ghost lm = items_model(lenses@);
        assert(self@.lenses.dom().contains(document@) && self@.lenses[document@] == lm);
        let found = opt_as_array(at(Some(&msg), "result"));
        let mut actions = match found {
            Some(a) => duplicate_items(a),
            None => Vec::new(),
        };
        let ghost base = match as_items(field(m, "result"@)) {
            Some(a) => a,
            None => Seq::<JsonModel>::empty(),
        };
        proof {
            crate::json::lemma_items_model(actions@);
            if found is Some {
                crate::json::lemma_items_model_eq(actions@, found->0@);
            }
            assert(items_model(actions@) =~= base);
            assert(lm.take(0) =~= Seq::<JsonModel>::empty());
        }
        let mut i: usize = 0;
        while i < lenses.len()
            invariant
                0 <= i <= lenses@.len(),
                lm == items_model(lenses@),
                items_model(actions@) == base + actions_for(lm.take(i as int), range@),
            decreases lenses@.len() - i,
        {
            proof {
                crate::json::lemma_items_model(lenses@);
                assert(lm.take(i + 1).drop_last() =~= lm.take(i as int));
                assert(lm.take(i + 1).last() == lenses@[i as int]@);
            }
            let ghost before = actions@;
            if offers_action_exec(&lenses[i], range) {
                actions.push(action_for_exec(&lenses[i]));
                proof {
                    crate::json::lemma_items_model(actions@);
                    crate::json::lemma_items_model(before);
                    assert(items_model(actions@) =~= items_model(before).push(action_for(lenses@[i as int]@)));
                }
            }
            i += 1;
        }
        proof {
            crate::json::lemma_items_model(lenses@);
        }
        assert(lm.take(lenses@.len() as int) =~= lm);
        msg.with_field("result", Json::Array(actions))
    }

    /// Whether the server's message can be handled: false only for an
    /// `initialize` response whose `result` or `result.capabilities` is
    /// present but is neither an object nor `null`, where serde_json's
    /// indexing panics.
    pub fn accepts_server_message(&self, msg: &Json) -> (b: bool)
        requires
            self.wf(),
        ensures
            b == server_message_ok(self@, msg@),
    {
        let method = opt_as_str(at(Some(msg), "method"));
        let notification = match method {
            Some(m) => str_eq(m.as_str(), "daml/virtualResource/didChange") || str_eq(
                m.as_str(),
                "daml/virtualResource/didProgress",
            ) || str_eq(m.as_str(), "daml/virtualResource/note"),
            None => false,
        };
        if notification {
            return true;
        }
        let id = match id_key_exec(msg) {
            Some(id) => id,
            None => {
                return true;
            },
        };
        match self.pending.get(id.as_str()) {
            Some(Pending::Initialize) => {},
            _ => {
                return true;
            },
        }
        let commands = opt_as_array(
            at(at(at(at(Some(msg), "result"), "capabilities"), "executeCommandProvider"), "commands"),
        );
        match commands {
            Some(c) => {
                let mut i: usize = 0;
                while i < c.len()
                    invariant
                        0 <= i <= c@.len(),
                        items_model(c@) == advertised_commands(msg@),
                        forall|j: int| 0 <= j < i ==> !is_text(#[trigger] advertised_commands(msg@)[j], show_resource()),
                    decreases c@.len() - i,
                {
                    proof {
                        crate::json::lemma_items_model(c@);
                    }
                    if c[i].is_str(SHOW_RESOURCE) {
                        return true;
                    }
                    i += 1;
                }
                proof {
                    crate::json::lemma_items_model(c@);
                }
            },
            None => {},
        }
        let result = at(Some(msg), "result");
        let caps = at(result, "capabilities");
        is_settable(Some(msg)) && is_settable(result) && is_settable(caps)
    }

    /// Handles a message from the server.
    pub fn on_server_message(&mut self, msg: Json) -> (out: Vec<Outbound>)
        requires
            old(self).wf(),
            server_message_ok(old(self)@, msg@),
        ensures
            final(self).wf(),
            (final(self)@, outs_model(out@)) == server_step(old(self)@, msg@),
    {
        let ghost st = self@;
        let ghost m = msg@;
        let kind: u8 = match opt_as_str(at(Some(&msg), "method")) {
            Some(name) => {
                if str_eq(name.as_str(), "daml/virtualResource/didChange") {
                    1
                } else if str_eq(name.as_str(), "daml/virtualResource/didProgress") || str_eq(
                    name.as_str(),
                    "daml/virtualResource/note",
                ) {
                    2
                } else {
                    0
                }
            },
            None => 0,
        };
        proof {
            reveal_strlit("");
        }
        assert(kind == 1 ==> server_method(m) == Some("daml/virtualResource/didChange"@));
        assert(kind == 2 ==> server_method(m) != Some("daml/virtualResource/didChange"@));
        if kind == 1 {
            let uri = text_or_empty(at(at(Some(&msg), "params"), "uri"));
            let contents = text_or_empty(at(at(Some(&msg), "params"), "contents"));
            let mut out: Vec<Outbound> = Vec::new();
            out.push(Outbound::ResourceChanged { uri, contents });
            assert(outs_model(out@) =~= server_step(st, m).1);
            return out;
        }
        if kind == 2 {
            let uri = text_or_empty(at(at(Some(&msg), "params"), "uri"));
            let mut out: Vec<Outbound> = Vec::new();
            out.push(Outbound::ResourceProgress { uri });
            assert(outs_model(out@) =~= server_step(st, m).1);
            return out;
        }
        let id = match id_key_exec(&msg) {
            Some(id) => id,
            None => {
                let mut out: Vec<Outbound> = Vec::new();
                out.push(Outbound::ToClient(msg));
                assert(outs_model(out@) =~= server_step(st, m).1);
                return out;
            },
        };
        let pending = match self.pending.remove(id.as_str()) {
            Some(p) => p,
            None => {
                assert(self@.pending =~= st.pending);
                assert(self@.lenses =~= st.lenses);
                let mut out: Vec<Outbound> = Vec::new();
                out.push(Outbound::ToClient(msg));
                assert(outs_model(out@) =~= server_step(st, m).1);
                return out;
            },
        };
        assert(self@.pending =~= st.pending.remove(id@));
        assert(st.pending[id@] == pending@);
        let reply = match pending {
            Pending::Initialize => {
                assert(self@.lenses =~= st.lenses);
                advertise_command(msg)
            },
            Pending::CodeLens { document } => {
                let found = opt_as_array(at(Some(&msg), "result"));
                match found {
                    Some(ls) => {
                        let copy = duplicate_items(ls);
                        proof {
                            crate::json::lemma_items_model_eq(copy@, ls@);
                        }
                        let ghost dm = document@;
                        let ghost lm = items_model(copy@);
                        self.lenses.insert(document, copy);
                        assert(self@.lenses =~= st.lenses.insert(dm, lm));
                    },
                    None => {
                        assert(self@.lenses =~= st.lenses);
                    },
                }
                msg
            },
            Pending::CodeAction { document, range } => {
                assert(self@.lenses =~= st.lenses);
                self.inject_actions(msg, document.as_str(), &range)
            },
        };
        let mut out: Vec<Outbound> = Vec::new();
        out.push(Outbound::ToClient(reply));
        assert(outs_model(out@) =~= server_step(st, m).1);
        out
    }
}

/// Whether `value[key] = ...` is defined on the value.
fn is_settable(o: Option<&Json>) -> (b: bool)
    ensures
        b == settable(opt_model(o)),
{
    match o {
        Some(Json::Object(_)) => true,
        Some(Json::Null) => true,
        None => true,
        _ => false,
    }
}

impl Default for Interceptor {
    fn default() -> (r: Interceptor)
        ensures
            r.wf(),
            r@.pending == Map::<Seq<char>, PendingModel>::empty(),
            r@.lenses == Map::<Seq<char>, Seq<JsonModel>>::empty(),
    {
        Interceptor::new()
    }
}

// ---------------------------------------------------------------- laws

/// Any message from the editor other than the bridge's own command reaches
/// the server unchanged.
pub proof fn law_client_messages_pass_through(st: InterceptorModel, msg: JsonModel)
    requires
        !is_show_command(msg),
    ensures
        client_step(st, msg).1 == seq![OutboundModel::ToServer(msg)],
        client_step(st, msg).0.lenses == st.lenses,
{
}

/// The bridge's own command is handled by the bridge and never forwarded: it
/// becomes a request to show the resource, answered with an empty result
/// when it carries an id, and the state does not change.
pub proof fn law_show_command_is_not_forwarded(st: InterceptorModel, msg: JsonModel)
    requires
        is_show_command(msg),
    ensures
        client_step(st, msg).0 == st,
        client_step(st, msg).1[0] == (OutboundModel::Show {
            title: show_title(command_args(msg)),
            uri: show_uri(command_args(msg)),
        }),
        forall|i: int|
            0 <= i < client_step(st, msg).1.len() ==> !(#[trigger] client_step(st, msg).1[i] is ToServer),
        (exists|i: int| 0 <= i < client_step(st, msg).1.len() && #[trigger] client_step(st, msg).1[i] is ToClient)
            <==> member(msg, "id"@) is Some,
{
    let out = client_step(st, msg).1;
    match member(msg, "id"@) {
        Some(id) => {
            assert(out[1] is ToClient);
        },
        None => {
            assert(out.len() == 1);
        },
    }
}

/// A request whose response the bridge rewrites is remembered under its id.
pub proof fn law_requests_are_remembered(st: InterceptorModel, msg: JsonModel)
    requires
        !is_show_command(msg),
        id_key(msg) is Some,
        pending_for(msg) is Some,
    ensures
        client_step(st, msg).0.pending == st.pending.insert(id_key(msg)->0, pending_for(msg)->0),
{
}

/// Virtual resource notifications from the server are absorbed: nothing is
/// sent to the editor or back to the server, and the state does not change.
pub proof fn law_resource_notifications_are_absorbed(st: InterceptorModel, msg: JsonModel)
    requires
        is_resource_notification(msg),
    ensures
        server_step(st, msg).0 == st,
        server_step(st, msg).1.len() == 1,
        !(server_step(st, msg).1[0] is ToClient),
        !(server_step(st, msg).1[0] is ToServer),
{
}

/// A server message that is neither a virtual resource notification nor the
/// response to a request the bridge is waiting for reaches the editor
/// unchanged.
pub proof fn law_server_messages_pass_through(st: InterceptorModel, msg: JsonModel)
    requires
        !is_resource_notification(msg),
        id_key(msg) is None || !st.pending.dom().contains(id_key(msg)->0),
    ensures
        server_step(st, msg) == (st, seq![OutboundModel::ToClient(msg)]),
{
}

/// A response is matched with its request once: the request is no longer
/// pending afterwards.
pub proof fn law_responses_consume_requests(st: InterceptorModel, msg: JsonModel)
    requires
        !is_resource_notification(msg),
        id_key(msg) is Some,
        st.pending.dom().contains(id_key(msg)->0),
    ensures
        server_step(st, msg).0.pending == st.pending.remove(id_key(msg)->0),
        server_step(st, msg).1.len() == 1,
        server_step(st, msg).1[0] is ToClient,
{
}

/// The code lenses of a `textDocument/codeLens` response are remembered for
/// the document the request named.
pub proof fn law_code_lenses_are_remembered(st: InterceptorModel, msg: JsonModel)
    requires
        !is_resource_notification(msg),
        id_key(msg) is Some,
        st.pending.dom().contains(id_key(msg)->0),
        st.pending[id_key(msg)->0] is CodeLens,
        as_items(field(msg, "result"@)) is Some,
    ensures
        server_step(st, msg).0.lenses == st.lenses.insert(
            st.pending[id_key(msg)->0]->CodeLens_document,
            as_items(field(msg, "result"@))->0,
        ),
        server_step(st, msg).1 == seq![OutboundModel::ToClient(msg)],
{
}

/// The rewritten `initialize` response advertises the bridge's command and
/// still lists every command the server advertised, in the same places.
pub proof fn law_advertise_adds_and_keeps(msg: JsonModel)
    requires
        advertise_defined(msg),
    ensures
        lists_show(advertised_commands(advertise(msg))),
        advertised_commands(msg).len() <= advertised_commands(advertise(msg)).len(),
        forall|i: int|
            0 <= i < advertised_commands(msg).len() ==> #[trigger] advertised_commands(advertise(msg))[i]
                == advertised_commands(msg)[i],
{
    let commands = advertised_commands(msg);
    if !lists_show(commands) {
        let out = advertised_commands(advertise(msg));
        assert(out == commands.push(JsonModel::String(show_resource())));
        assert(is_text(out[commands.len() as int], show_resource()));
    }
}

/// A `codeLens` or `codeAction` request is remembered under the document it
/// names in `params.textDocument.uri` (empty text when that is not text).
pub proof fn law_requests_are_remembered_by_their_document(st: InterceptorModel, msg: JsonModel)
    requires
        method_of(msg) == "textDocument/codeLens"@ || method_of(msg) == "textDocument/codeAction"@,
        id_key(msg) is Some,
    ensures
        ({
            let uri = field(field(field(msg, "params"@), "textDocument"@), "uri"@);
            let doc = match uri {
                JsonModel::String(u) => u,
                _ => Seq::empty(),
            };
            let p = client_step(st, msg).0.pending[id_key(msg)->0];
            &&& client_step(st, msg).0.pending.dom().contains(id_key(msg)->0)
            &&& method_of(msg) == "textDocument/codeLens"@ ==> p == PendingModel::CodeLens {
                document: doc,
            }
            &&& method_of(msg) == "textDocument/codeAction"@ ==> p == PendingModel::CodeAction {
                document: doc,
                range: field(field(msg, "params"@), "range"@),
            }
        }),
{
    reveal_strlit("textDocument/codeLens");
    reveal_strlit("textDocument/codeAction");
    reveal_strlit("workspace/executeCommand");
    reveal_strlit("initialize");
    assert("textDocument/codeLens"@ != "workspace/executeCommand"@) by {
        assert("textDocument/codeLens"@[0] != "workspace/executeCommand"@[0]);
    }
    assert("textDocument/codeAction"@ != "workspace/executeCommand"@) by {
        assert("textDocument/codeAction"@[0] != "workspace/executeCommand"@[0]);
    }
    assert("textDocument/codeLens"@ != "initialize"@) by {
        assert("textDocument/codeLens"@[1] != "initialize"@[1]);
    }
    assert("textDocument/codeAction"@ != "initialize"@) by {
        assert("textDocument/codeAction"@[1] != "initialize"@[1]);
    }
    assert("textDocument/codeLens"@ != "textDocument/codeAction"@) by {
        assert("textDocument/codeLens"@[17] != "textDocument/codeAction"@[17]);
    }
}

/// The code lenses of a `codeLens` response are remembered for the document
/// its request named, replacing that document's earlier ones; every other
/// document keeps its own.
pub proof fn law_lenses_are_kept_per_document(
    st: InterceptorModel,
    request: JsonModel,
    response: JsonModel,
    document: Seq<char>,
    lenses: Seq<JsonModel>,
)
    requires
        method_of(request) == "textDocument/codeLens"@,
        id_key(request) is Some,
        id_key(response) == id_key(request),
        !is_resource_notification(response),
        field(field(field(request, "params"@), "textDocument"@), "uri"@) == JsonModel::String(
            document,
        ),
        field(response, "result"@) == JsonModel::Array(lenses),
    ensures
        server_step(client_step(st, request).0, response).0.lenses == st.lenses.insert(
            document,
            lenses,
        ),
        server_step(client_step(st, request).0, response).1 == seq![
            OutboundModel::ToClient(response),
        ],
{
    law_requests_are_remembered_by_their_document(st, request);
    reveal_strlit("textDocument/codeLens");
    reveal_strlit("workspace/executeCommand");
    assert("textDocument/codeLens"@ != "workspace/executeCommand"@) by {
        assert("textDocument/codeLens"@[0] != "workspace/executeCommand"@[0]);
    }
    assert(client_step(st, request).0.lenses == st.lenses);
}

/// A code action response for a document whose own code lenses were never
/// seen reaches the editor unchanged, whatever lenses other documents have.
pub proof fn law_actions_come_only_from_the_documents_own_lenses(
    st: InterceptorModel,
    request: JsonModel,
    response: JsonModel,
    document: Seq<char>,
)
    requires
        method_of(request) == "textDocument/codeAction"@,
        id_key(request) is Some,
        id_key(response) == id_key(request),
        !is_resource_notification(response),
        field(field(field(request, "params"@), "textDocument"@), "uri"@) == JsonModel::String(
            document,
        ),
        !st.lenses.dom().contains(document),
    ensures
        server_step(client_step(st, request).0, response).1 == seq![
            OutboundModel::ToClient(response),
        ],
{
    law_requests_are_remembered_by_their_document(st, request);
    reveal_strlit("textDocument/codeAction");
    reveal_strlit("workspace/executeCommand");
    assert("textDocument/codeAction"@ != "workspace/executeCommand"@) by {
        assert("textDocument/codeAction"@[0] != "workspace/executeCommand"@[0]);
    }
    assert(client_step(st, request).0.lenses == st.lenses);
}

/// Advertising the command touches `result.capabilities.executeCommandProvider`
/// alone: every other member of the message, of its `result` and of
/// `result.capabilities` reaches the editor as the server sent it.
pub proof fn law_advertise_keeps_every_other_member(msg: JsonModel, k: Seq<char>)
    requires
        advertise_defined(msg),
    ensures
        k != "result"@ ==> member(advertise(msg), k) == member(msg, k),
        k != "capabilities"@ ==> member(field(advertise(msg), "result"@), k) == member(
            field(msg, "result"@),
            k,
        ),
        k != "executeCommandProvider"@ ==> member(
            field(field(advertise(msg), "result"@), "capabilities"@),
            k,
        ) == member(field(field(msg, "result"@), "capabilities"@), k),
{
}

/// Advertising twice is the same as advertising once.
pub proof fn law_advertise_is_idempotent(msg: JsonModel)
    requires
        advertise_defined(msg),
    ensures
        advertise(advertise(msg)) == advertise(msg),
{
    law_advertise_adds_and_keeps(msg);
}

/// Every action `actions_for` offers comes from a lens that runs the bridge's
/// command on the requested lines, and every such lens offers one.
pub proof fn law_actions_come_from_matching_lenses(lenses: Seq<JsonModel>, range: JsonModel)
    ensures
        actions_for(lenses, range).len() <= lenses.len(),
        forall|i: int|
            0 <= i < actions_for(lenses, range).len() ==> exists|j: int|
                0 <= j < lenses.len() && offers_action(#[trigger] lenses[j], range)
                    && #[trigger] actions_for(lenses, range)[i] == action_for(lenses[j]),
        forall|j: int|
            0 <= j < lenses.len() && offers_action(#[trigger] lenses[j], range) ==> exists|i: int|
                0 <= i < actions_for(lenses, range).len() && #[trigger] actions_for(lenses, range)[i]
                    == action_for(lenses[j]),
    decreases lenses.len(),
{
    if lenses.len() > 0 {
        let init = lenses.drop_last();
        law_actions_come_from_matching_lenses(init, range);
        let rest = actions_for(init, range);
        let all = actions_for(lenses, range);
        assert forall|i: int| 0 <= i < all.len() implies exists|j: int|
            0 <= j < lenses.len() && offers_action(#[trigger] lenses[j], range) && #[trigger] all[i]
                == action_for(lenses[j]) by {
            if i < rest.len() {
                let j = choose|j: int|
                    0 <= j < init.len() && offers_action(#[trigger] init[j], range) && #[trigger] rest[i]
                        == action_for(init[j]);
                assert(lenses[j] == init[j]);
                assert(all[i] == rest[i]);
            } else {
                assert(lenses[lenses.len() - 1] == lenses.last());
            }
        }
        assert forall|j: int| 0 <= j < lenses.len() && offers_action(#[trigger] lenses[j], range) implies exists|i: int|
            0 <= i < all.len() && #[trigger] all[i] == action_for(lenses[j]) by {
            if j < init.len() {
                assert(init[j] == lenses[j]);
                let i = choose|i: int| 0 <= i < rest.len() && #[trigger] rest[i] == action_for(init[j]);
                assert(all[i] == rest[i]);
            } else {
                assert(all[rest.len() as int] == action_for(lenses.last()));
            }
        }
    }
}

/// A code action response keeps every action the server returned, in front
/// of the ones the bridge adds.
pub proof fn law_code_actions_keep_server_actions(
    lenses: Map<Seq<char>, Seq<JsonModel>>,
    msg: JsonModel,
    document: Seq<char>,
    range: JsonModel,
    base: Seq<JsonModel>,
)
    requires
        as_items(field(msg, "result"@)) == Some(base),
        settable(msg),
    ensures
        as_items(field(inject(lenses, msg, document, range), "result"@)) matches Some(result)
            && base.len() <= result.len() && result.subrange(0, base.len() as int) == base,
{
    if lenses.dom().contains(document) {
        let result = base + actions_for(lenses[document], range);
        assert(result.subrange(0, base.len() as int) =~= base);
    } else {
        assert(base.subrange(0, base.len() as int) =~= base);
    }
}
} // verus!
