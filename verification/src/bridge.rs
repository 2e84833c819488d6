//! The proxy's own decisions: how it is invoked, and what each action the
//! interceptor asks for turns into.
//!
//! Usage: `daml-ide-bridge [--no-open] [--log PATH] -- <language server command...>`

use vstd::prelude::*;
use crate::intercept::{outs_model, Outbound, OutboundModel};
use crate::json::{make_object1, make_object3, object1, object3, Json, JsonModel, JsonNumber, NumberModel};
use crate::resources::{registered, rendered, started, Registry, RegistryModel};
use crate::ids::resource_id_of;
use crate::server::texts;
use crate::text::{append_str, chars_of, decimal, decimal_exec, append_chars, str_eq, string_of};

verus! {

broadcast use vstd::string::group_string_axioms;

/// Printed when no language server command is given.
pub const USAGE: &'static str = "usage: daml-ide-bridge [--no-open] [--log PATH] -- <language server command...>";

/// The trace line written when the editor goes away.
pub const CLOSED: &'static str = "editor closed the connection";

/// The environment variable that names a trace file when `--log` does not.
pub const LOG_VARIABLE: &'static str = "DAML_IDE_BRIDGE_LOG";

// ---------------------------------------------------------------- command line

/// What the bridge was asked to do.
pub struct Invocation {
    /// Open each new result in the browser.
    pub auto_open: bool,
    /// Where to write the trace, if anywhere.
    pub log_path: Option<String>,
    /// The language server to run, program first.
    pub server_command: Vec<String>,
}

/// The model of an invocation.
pub struct InvocationModel {
    pub auto_open: bool,
    pub log_path: Option<Seq<char>>,
    pub server_command: Seq<Seq<char>>,
}

impl View for Invocation {
    type V = InvocationModel;

    open spec fn view(&self) -> InvocationModel {
        InvocationModel {
            auto_open: self.auto_open,
            log_path: opt_text(self.log_path),
            server_command: texts(self.server_command@),
        }
    }
}

/// The text of an optional string.
pub open spec fn opt_text(o: Option<String>) -> Option<Seq<char>> {
    match o {
        Some(s) => Some(s@),
        None => None,
    }
}

/// `s` without any copy of `x`, the rest in order.
pub open spec fn without(s: Seq<Seq<char>>, x: Seq<char>) -> Seq<Seq<char>>
    decreases s.len(),
{
    if s.len() == 0 {
        s
    } else if s.last() == x {
        without(s.drop_last(), x)
    } else {
        without(s.drop_last(), x).push(s.last())
    }
}

/// The index of the first copy of `x` in `s`.
pub open spec fn first_index(s: Seq<Seq<char>>, x: Seq<char>) -> Option<int>
    decreases s.len(),
{
    if s.len() == 0 {
        None
    } else if s[0] == x {
        Some(0)
    } else {
        shifted(first_index(s.skip(1), x), 1)
    }
}

/// An optional index moved along by `k`.
pub open spec fn shifted(o: Option<int>, k: int) -> Option<int> {
    match o {
        Some(i) => Some(i + k),
        None => None,
    }
}

/// The arguments with `--log` and the path after it taken out (just `--log`
/// when it comes last).
pub open spec fn without_log_option(args: Seq<Seq<char>>) -> Seq<Seq<char>> {
    match first_index(args, "--log"@) {
        Some(i) => args.take(i) + args.skip(if i + 2 <= args.len() { i + 2 } else { args.len() as int }),
        None => args,
    }
}

/// What the command line `args` asks for, with `env_log` the value of the
/// environment variable; `None` when it names no language server.
///
/// `--no-open` anywhere turns browser opening off. `--log PATH` (the first
/// `--log`) names the trace file, falling back to the environment. What
/// follows the first `--` is the server command; without `--`, everything
/// left is.
pub open spec fn invocation(args: Seq<Seq<char>>, env_log: Option<Seq<char>>) -> Option<InvocationModel> {
    let auto_open = !args.contains("--no-open"@);
    let args1 = without(args, "--no-open"@);
    let log_path = match first_index(args1, "--log"@) {
        Some(i) if i + 1 < args1.len() => Some(args1[i + 1]),
        _ => env_log,
    };
    let args2 = without_log_option(args1);
    let command = match first_index(args2, "--"@) {
        Some(i) => args2.skip(i + 1),
        None => args2,
    };
    if command.len() == 0 {
        None
    } else {
        Some(InvocationModel { auto_open, log_path, server_command: command })
    }
}

proof fn lemma_first_index_bounds(s: Seq<Seq<char>>, x: Seq<char>)
    ensures
        first_index(s, x) matches Some(i) ==> 0 <= i < s.len() && s[i] == x,
        first_index(s, x) is None ==> !s.contains(x),
    decreases s.len(),
{
    if s.len() > 0 && s[0] != x {
        lemma_first_index_bounds(s.skip(1), x);
        if first_index(s, x) is None {
            assert forall|j: int| 0 <= j < s.len() implies s[j] != x by {
                if j > 0 {
                    assert(s.skip(1)[j - 1] == s[j]);
                }
            }
        } else {
            assert(s.skip(1)[first_index(s.skip(1), x)->0] == s[first_index(s, x)->0]);
        }
    }
}

/// The index of the first argument equal to `x`.
fn position(args: &Vec<String>, x: &str) -> (r: Option<usize>)
    ensures
        r matches Some(j) ==> first_index(texts(args@), x@) == Some(j as int),
        r is None <==> first_index(texts(args@), x@) is None,
{
    let ghost s = texts(args@);
    assert(s.skip(0) =~= s);
    let mut i: usize = 0;
    while i < args.len()
        invariant
            0 <= i <= args@.len(),
            s == texts(args@),
            first_index(s, x@) == shifted(first_index(s.skip(i as int), x@), i as int),
        decreases args@.len() - i,
    {
        let ghost rest = s.skip(i as int);
        assert(rest.len() > 0 && rest[0] == args@[i as int]@);
        if str_eq(args[i].as_str(), x) {
            return Some(i);
        }
        assert(rest.skip(1) =~= s.skip(i + 1));
        i += 1;
    }
    None
}

/// Copies of the arguments that are not `x`.
fn without_exec(args: &Vec<String>, x: &str) -> (r: Vec<String>)
    ensures
        texts(r@) == without(texts(args@), x@),
{
    let ghost s = texts(args@);
    let mut out: Vec<String> = Vec::new();
    let mut i: usize = 0;
    assert(s.take(0) =~= Seq::<Seq<char>>::empty());
    assert(texts(out@) =~= without(s.take(0), x@));
    while i < args.len()
        invariant
            0 <= i <= args@.len(),
            s == texts(args@),
            texts(out@) == without(s.take(i as int), x@),
        decreases args@.len() - i,
    {
        let ghost before = out@;
        assert(s.take(i + 1).drop_last() =~= s.take(i as int));
        assert(s.take(i + 1).last() == args@[i as int]@);
        if !str_eq(args[i].as_str(), x) {
            out.push(args[i].clone());
            assert(texts(out@) =~= texts(before).push(args@[i as int]@));
        }
        i += 1;
    }
    assert(s.take(args@.len() as int) =~= s);
    out
}

/// Copies of `args[from..to]`.
fn copy_range(args: &Vec<String>, from: usize, to: usize) -> (r: Vec<String>)
    requires
        from <= to <= args@.len(),
    ensures
        texts(r@) == texts(args@).subrange(from as int, to as int),
{
    let mut out: Vec<String> = Vec::new();
    let mut i = from;
    while i < to
        invariant
            from <= i <= to <= args@.len(),
            texts(out@) == texts(args@).subrange(from as int, i as int),
        decreases to - i,
    {
        let ghost before = out@;
        out.push(args[i].clone());
        assert(texts(out@) =~= texts(before).push(args@[i as int]@));
        assert(texts(args@).subrange(from as int, i + 1) =~= texts(args@).subrange(from as int, i as int).push(args@[i as int]@));
        i += 1;
    }
    out
}

/// Reads the command line: `args` without the program name, and the value
/// of [`LOG_VARIABLE`] if it is set. `None` means no language server was
/// named, and [`USAGE`] is due.
pub fn parse_args(args: Vec<String>, env_log: Option<String>) -> (r: Option<Invocation>)
    ensures
        match invocation(texts(args@), opt_text(env_log)) {
            Some(m) => r matches Some(inv) && inv@ == m,
            None => r is None,
        },
{
    let ghost a = texts(args@);
    let auto_open = position(&args, "--no-open").is_none();
    proof {
        lemma_first_index_bounds(a, "--no-open"@);
    }
    let args1 = without_exec(&args, "--no-open");
    let log_at = position(&args1, "--log");
    proof {
        lemma_first_index_bounds(texts(args1@), "--log"@);
        assert(texts(args1@).len() == args1@.len());
    }
    let log_path = match log_at {
        Some(i) => {
            let n = args1.len();
            if i + 1 < n {
                Some(args1[i + 1].clone())
            } else {
                env_log
            }
        },
        None => env_log,
    };
    let args2 = match log_at {
        Some(i) => {
            let n = args1.len();
            let end = if i + 1 < n { i + 2 } else { n };
            let mut kept = copy_range(&args1, 0, i);
            let tail = copy_range(&args1, end, args1.len());
            let ghost k = kept@;
            let mut j: usize = 0;
            while j < tail.len()
                invariant
                    0 <= j <= tail@.len(),
                    texts(kept@) == texts(k) + texts(tail@).take(j as int),
                decreases tail@.len() - j,
            {
                let ghost before = kept@;
                kept.push(tail[j].clone());
                assert(texts(kept@) =~= texts(before).push(tail@[j as int]@));
                assert(texts(tail@).take(j + 1) =~= texts(tail@).take(j as int).push(tail@[j as int]@));
                j += 1;
            }
            assert(texts(tail@).take(tail@.len() as int) =~= texts(tail@));
            assert(texts(args1@).take(i as int) =~= texts(args1@).subrange(0, i as int));
            assert(texts(args1@).skip(end as int) =~= texts(args1@).subrange(end as int, args1@.len() as int));
            kept
        },
        None => args1,
    };
    assert(texts(args2@) == without_log_option(texts(args1@)));
    let dash = position(&args2, "--");
    proof {
        lemma_first_index_bounds(texts(args2@), "--"@);
        assert(texts(args2@).len() == args2@.len());
    }
    let command = match dash {
        Some(i) => {
            let n = args2.len();
            let c = copy_range(&args2, i + 1, n);
            assert(texts(args2@).skip(i + 1) =~= texts(args2@).subrange(i + 1, args2@.len() as int));
            c
        },
        None => args2,
    };
    if command.len() == 0 {
        None
    } else {
        Some(Invocation { auto_open, log_path, server_command: command })
    }
}

/// The trace line that opens a session: `start: ` and the server command,
/// its words separated by spaces.
pub fn start_line(command: &Vec<String>) -> (r: String)
    ensures
        r@ == "start: "@ + joined(texts(command@)),
{
    let mut v = chars_of("start: ");
    let ghost head = v@;
    let mut i: usize = 0;
    while i < command.len()
        invariant
            0 <= i <= command@.len(),
            head == "start: "@,
            v@ == head + joined(texts(command@).take(i as int)),
        decreases command@.len() - i,
    {
        if i > 0 {
            v.push(' ');
        }
        append_str(&mut v, command[i].as_str());
        proof {
            let t = texts(command@).take(i + 1);
            assert(t.drop_last() =~= texts(command@).take(i as int));
        }
        i += 1;
    }
    assert(texts(command@).take(command@.len() as int) =~= texts(command@));
    string_of(v.as_slice())
}

/// The words separated by single spaces.
pub open spec fn joined(words: Seq<Seq<char>>) -> Seq<char>
    decreases words.len(),
{
    if words.len() == 0 {
        Seq::empty()
    } else if words.len() == 1 {
        words[0]
    } else {
        joined(words.drop_last()) + seq![' '] + words.last()
    }
}

// ---------------------------------------------------------------- a session

/// Where results are served, and whether to open them.
pub struct Session {
    /// `http://127.0.0.1:{port}`
    pub base: String,
    pub token: String,
    pub auto_open: bool,
}

/// The address of the local server on `port`.
pub open spec fn base_url(port: u16) -> Seq<char> {
    "http://127.0.0.1:"@ + decimal(port as nat)
}

/// The address of the listing.
pub open spec fn listing_url(base: Seq<char>, token: Seq<char>) -> Seq<char> {
    base + "/?token="@ + token
}

/// The address of one result's page.
pub open spec fn result_url(base: Seq<char>, id: Seq<char>, token: Seq<char>) -> Seq<char> {
    base + "/r/"@ + id + "?token="@ + token
}

impl Session {
    /// A session serving on `port`.
    pub fn new(port: u16, token: String, auto_open: bool) -> (r: Session)
        ensures
            r.base@ == base_url(port),
            r.token@ == token@,
            r.auto_open == auto_open,
    {
        let mut v = chars_of("http://127.0.0.1:");
        let digits = decimal_exec(port as u64);
        append_chars(&mut v, digits.as_slice());
        Session { base: string_of(v.as_slice()), token, auto_open }
    }

    /// The address of the listing, carrying the token.
    pub fn listing_url(&self) -> (r: String)
        ensures
            r@ == listing_url(self.base@, self.token@),
    {
        let mut v = chars_of(self.base.as_str());
        append_str(&mut v, "/?token=");
        append_str(&mut v, self.token.as_str());
        string_of(v.as_slice())
    }

    /// What the user is told when the server is up.
    pub fn banner(&self) -> (r: String)
        ensures
            r@ == "daml-ide-bridge: script results at "@ + listing_url(self.base@, self.token@),
    {
        let mut v = chars_of("daml-ide-bridge: script results at ");
        let url = self.listing_url();
        append_str(&mut v, url.as_str());
        string_of(v.as_slice())
    }

    /// The trace line that records where the server is.
    pub fn trace_line(&self) -> (r: String)
        ensures
            r@ == "http: "@ + listing_url(self.base@, self.token@),
    {
        let mut v = chars_of("http: ");
        let url = self.listing_url();
        append_str(&mut v, url.as_str());
        string_of(v.as_slice())
    }

    /// The address of one result's page, carrying the token.
    pub fn result_url(&self, id: &str) -> (r: String)
        ensures
            r@ == result_url(self.base@, id@, self.token@),
    {
        let mut v = chars_of(self.base.as_str());
        append_str(&mut v, "/r/");
        append_str(&mut v, id);
        append_str(&mut v, "?token=");
        append_str(&mut v, self.token.as_str());
        string_of(v.as_slice())
    }
}

/// The model of a session.
pub struct SessionModel {
    pub base: Seq<char>,
    pub token: Seq<char>,
    pub auto_open: bool,
}

impl View for Session {
    type V = SessionModel;

    open spec fn view(&self) -> SessionModel {
        SessionModel { base: self.base@, token: self.token@, auto_open: self.auto_open }
    }
}

// ---------------------------------------------------------------- dispatch

/// Something the bridge must do outside itself.
pub enum Effect {
    /// Send to the language server.
    ToServer(Json),
    /// Send to the editor.
    ToClient(Json),
    /// Write a line to the trace.
    Trace(String),
    /// Summarise a message in the trace, with the direction it travels.
    TraceMessage(String, Json),
    /// Tell the user, on standard error.
    Announce(String),
    /// Open an address in the browser.
    OpenBrowser(String),
}

/// The model of an effect.
pub enum EffectModel {
    ToServer(JsonModel),
    ToClient(JsonModel),
    Trace(Seq<char>),
    TraceMessage(Seq<char>, JsonModel),
    Announce(Seq<char>),
    OpenBrowser(Seq<char>),
}

impl View for Effect {
    type V = EffectModel;

    open spec fn view(&self) -> EffectModel {
        match self {
            Effect::ToServer(m) => EffectModel::ToServer(m@),
            Effect::ToClient(m) => EffectModel::ToClient(m@),
            Effect::Trace(t) => EffectModel::Trace(t@),
            Effect::TraceMessage(d, m) => EffectModel::TraceMessage(d@, m@),
            Effect::Announce(t) => EffectModel::Announce(t@),
            Effect::OpenBrowser(u) => EffectModel::OpenBrowser(u@),
        }
    }
}

/// The models of a list of effects.
pub open spec fn effects_model(v: Seq<Effect>) -> Seq<EffectModel> {
    v.map_values(|e: Effect| e@)
}

/// The notification that opens a virtual resource on the server, which is
/// what makes the server start rendering it.
pub open spec fn did_open(uri: Seq<char>) -> JsonModel {
    object3(
        "jsonrpc"@,
        JsonModel::String("2.0"@),
        "method"@,
        JsonModel::String("textDocument/didOpen"@),
        "params"@,
        object1(
            "textDocument"@,
            JsonModel::Object(
                Map::empty().insert("text"@, JsonModel::String(Seq::empty())).insert(
                    "version"@,
                    JsonModel::Number(NumberModel::PosInt(0)),
                ).insert("languageId"@, JsonModel::String("daml"@)).insert(
                    "uri"@,
                    JsonModel::String(uri),
                ),
            ),
        ),
    )
}

/// What one action does to the registry, and the effects it has, in order.
///
/// Showing a result registers it; the first time a URI is shown the server
/// is asked to open it and, when the session opens results, the browser is
/// pointed at its page. The user is always told where the page is. Renders
/// and progress go to the registry.
pub open spec fn dispatch_one(
    m: RegistryModel,
    o: OutboundModel,
    s: SessionModel,
) -> (RegistryModel, Seq<EffectModel>) {
    match o {
        OutboundModel::ToServer(msg) => (m, seq![EffectModel::ToServer(msg)]),
        OutboundModel::ToClient(msg) => (
            m,
            seq![EffectModel::TraceMessage("bridge->editor"@, msg), EffectModel::ToClient(msg)],
        ),
        OutboundModel::Show { title, uri } => {
            let first = !m.id_by_uri.dom().contains(uri);
            let url = result_url(s.base, resource_id_of(uri), s.token);
            let open = if first { seq![EffectModel::ToServer(did_open(uri))] } else { Seq::empty() };
            let browse = if s.auto_open && first { seq![EffectModel::OpenBrowser(url)] } else { Seq::empty() };
            (
                registered(m, title, uri),
                seq![EffectModel::Trace("show: "@ + title + " "@ + uri)] + open
                    + seq![EffectModel::Announce("daml-ide-bridge: "@ + title + " -> "@ + url)] + browse,
            )
        },
        OutboundModel::ResourceChanged { uri, contents } => (
            rendered(m, uri, contents),
            seq![EffectModel::Trace(
                "rendered: "@ + decimal((vstd::utf8::encode_utf8(contents).len() as usize) as nat) + " bytes for "@
                    + uri,
            )],
        ),
        OutboundModel::ResourceProgress { uri } => (started(m, uri), Seq::empty()),
    }
}

/// What a list of actions does, one after the other.
pub open spec fn dispatch_all(
    m: RegistryModel,
    os: Seq<OutboundModel>,
    s: SessionModel,
) -> (RegistryModel, Seq<EffectModel>)
    decreases os.len(),
{
    if os.len() == 0 {
        (m, Seq::empty())
    } else {
        let (m1, e1) = dispatch_all(m, os.drop_last(), s);
        let (m2, e2) = dispatch_one(m1, os.last(), s);
        (m2, e1 + e2)
    }
}

/// The notification that opens `uri` on the server.
fn did_open_exec(uri: &str) -> (r: Json)
    ensures
        r@ == did_open(uri@),
{
    let doc0 = make_object3(
        "uri",
        Json::String(uri.to_owned()),
        "languageId",
        Json::String("daml".to_owned()),
        "version",
        Json::Number(JsonNumber::PosInt(0)),
    );
    let doc = doc0.with_field("text", Json::String(String::new()));
    proof {
        let inner = JsonModel::Object(
            Map::empty().insert("text"@, JsonModel::String(Seq::empty())).insert(
                "version"@,
                JsonModel::Number(NumberModel::PosInt(0)),
            ).insert("languageId"@, JsonModel::String("daml"@)).insert("uri"@, JsonModel::String(uri@)),
        );
        reveal_strlit("text");
        reveal_strlit("version");
        reveal_strlit("languageId");
        reveal_strlit("uri");
        assert("text"@.len() == 4 && "version"@.len() == 7 && "languageId"@.len() == 10 && "uri"@.len() == 3);
        let m0 = doc0@->Object_0;
        assert(doc@ == JsonModel::Object(m0.insert("text"@, JsonModel::String(Seq::empty()))));
        assert(doc@->Object_0 =~= inner->Object_0);
    }
    let params = make_object1("textDocument", doc);
    make_object3(
        "jsonrpc",
        Json::String("2.0".to_owned()),
        "method",
        Json::String("textDocument/didOpen".to_owned()),
        "params",
        params,
    )
}

/// Carries out one action: updates the registry and appends its effects.
fn dispatch_item(o: Outbound, registry: &mut Registry, session: &Session, effects: &mut Vec<Effect>)
    requires
        old(registry).wf(),
    ensures
        final(registry).wf(),
        (final(registry)@, effects_model(final(effects)@)) == ({
            let (m, e) = dispatch_one(old(registry)@, o@, session@);
            (m, effects_model(old(effects)@) + e)
        }),
{
    let ghost before = effects_model(effects@);
    let ghost om = o@;
    match o {
        Outbound::ToServer(msg) => {
            effects.push(Effect::ToServer(msg));
            assert(effects_model(effects@) =~= before + dispatch_one(old(registry)@, om, session@).1);
        },
        Outbound::ToClient(msg) => {
            let copy = msg.duplicate();
            effects.push(Effect::TraceMessage("bridge->editor".to_owned(), copy));
            effects.push(Effect::ToClient(msg));
            assert(effects_model(effects@) =~= before + dispatch_one(old(registry)@, om, session@).1);
        },
        Outbound::Show { title, uri } => {
            let mut line = chars_of("show: ");
            append_str(&mut line, title.as_str());
            append_str(&mut line, " ");
            append_str(&mut line, uri.as_str());
            effects.push(Effect::Trace(string_of(line.as_slice())));
            let first = !registry.is_known(uri.as_str());
            let id = registry.register(title.as_str(), uri.as_str());
            if first {
                effects.push(Effect::ToServer(did_open_exec(uri.as_str())));
            }
            let url = session.result_url(id.as_str());
            let mut note = chars_of("daml-ide-bridge: ");
            append_str(&mut note, title.as_str());
            append_str(&mut note, " -> ");
            append_str(&mut note, url.as_str());
            effects.push(Effect::Announce(string_of(note.as_slice())));
            if session.auto_open && first {
                effects.push(Effect::OpenBrowser(url));
            }
            assert(effects_model(effects@) =~= before + dispatch_one(old(registry)@, om, session@).1);
        },
        Outbound::ResourceChanged { uri, contents } => {
            let mut line = chars_of("rendered: ");
            let size = decimal_exec(contents.as_str().len() as u64);
            append_chars(&mut line, size.as_slice());
            append_str(&mut line, " bytes for ");
            append_str(&mut line, uri.as_str());
            effects.push(Effect::Trace(string_of(line.as_slice())));
            registry.update(uri.as_str(), contents.as_str());
            assert(effects_model(effects@) =~= before + dispatch_one(old(registry)@, om, session@).1);
        },
        Outbound::ResourceProgress { uri } => {
            registry.set_running(uri.as_str());
            assert(effects_model(effects@) =~= before + dispatch_one(old(registry)@, om, session@).1);
        },
    }
}

/// Carries out what the interceptor decided, in order: the registry is
/// updated here, and what must happen outside comes back as effects.
pub fn dispatch(outbound: Vec<Outbound>, registry: &mut Registry, session: &Session) -> (effects: Vec<Effect>)
    requires
        old(registry).wf(),
    ensures
        final(registry).wf(),
        (final(registry)@, effects_model(effects@)) == dispatch_all(old(registry)@, outs_model(outbound@), session@),
{
    let ghost os = outs_model(outbound@);
    let ghost all = outbound@;
    let mut effects: Vec<Effect> = Vec::new();
    let mut rest = outbound;
    assert(effects_model(effects@) =~= Seq::<EffectModel>::empty());
    assert(os.take(0) =~= Seq::<OutboundModel>::empty());
    assert(all.skip(0) =~= all);
    let ghost start = registry@;
    let mut i: usize = 0;
    let n = rest.len();
    while rest.len() > 0
        invariant
            registry.wf(),
            n == os.len(),
            os == outs_model(all),
            i + rest@.len() == n,
            rest@ == all.skip(i as int),
            (registry@, effects_model(effects@)) == dispatch_all(start, os.take(i as int), session@),
        decreases rest@.len(),
    {
        let o = rest.remove(0);
        assert(o@ == os[i as int]);
        dispatch_item(o, registry, session, &mut effects);
        assert(os.take(i + 1).drop_last() =~= os.take(i as int));
        assert(rest@ =~= all.skip(i + 1));
        i += 1;
    }
    assert(os.take(n as int) =~= os);
    effects
}

// ---------------------------------------------------------------- the browser

/// The program that opens an address in the user's browser on the given
/// operating system (as `std::env::consts::OS` names it), and its
/// arguments: `open` on macOS, `cmd /c start` on Windows, `xdg-open`
/// elsewhere.
pub open spec fn launcher_for(os: Seq<char>, url: Seq<char>) -> (Seq<char>, Seq<Seq<char>>) {
    if os == "macos"@ {
        ("open"@, seq![url])
    } else if os == "windows"@ {
        ("cmd"@, seq!["/c"@, "start"@, ""@, url])
    } else {
        ("xdg-open"@, seq![url])
    }
}

/// The command that opens `url` in the browser on `os`.
pub fn launcher(os: &str, url: &str) -> (r: (String, Vec<String>))
    ensures
        (r.0@, texts(r.1@)) == launcher_for(os@, url@),
{
    let mut args: Vec<String> = Vec::new();
    if str_eq(os, "macos") {
        args.push(url.to_owned());
        assert(texts(args@) =~= seq![url@]);
        ("open".to_owned(), args)
    } else if str_eq(os, "windows") {
        args.push("/c".to_owned());
        args.push("start".to_owned());
        args.push("".to_owned());
        args.push(url.to_owned());
        assert(texts(args@) =~= seq!["/c"@, "start"@, ""@, url@]);
        ("cmd".to_owned(), args)
    } else {
        args.push(url.to_owned());
        assert(texts(args@) =~= seq![url@]);
        ("xdg-open".to_owned(), args)
    }
}

// ---------------------------------------------------------------- laws

/// The server is asked to open a virtual resource only the first time it is
/// shown: showing it again changes nothing on the server's side.
pub proof fn law_resources_are_opened_once(
    m: RegistryModel,
    title: Seq<char>,
    uri: Seq<char>,
    s: SessionModel,
)
    ensures
        m.id_by_uri.dom().contains(uri) ==> forall|k: int|
            0 <= k < dispatch_one(m, OutboundModel::Show { title, uri }, s).1.len()
                ==> !(#[trigger] dispatch_one(m, OutboundModel::Show { title, uri }, s).1[k] is ToServer),
        !m.id_by_uri.dom().contains(uri) ==> dispatch_one(m, OutboundModel::Show { title, uri }, s).1[1]
            == EffectModel::ToServer(did_open(uri)),
        registered(m, title, uri).id_by_uri.dom().contains(uri),
{
}

/// Showing a result always tells the user where its page is, and opens the
/// browser only for a new result in a session that opens results.
pub proof fn law_the_page_address_is_always_given(
    m: RegistryModel,
    title: Seq<char>,
    uri: Seq<char>,
    s: SessionModel,
)
    ensures
        ({
            let e = dispatch_one(m, OutboundModel::Show { title, uri }, s).1;
            let url = result_url(s.base, resource_id_of(uri), s.token);
            &&& e.contains(EffectModel::Announce("daml-ide-bridge: "@ + title + " -> "@ + url))
            &&& e.contains(EffectModel::OpenBrowser(url)) <==> (s.auto_open && !m.id_by_uri.dom().contains(uri))
        }),
{
    let e = dispatch_one(m, OutboundModel::Show { title, uri }, s).1;
    let url = result_url(s.base, resource_id_of(uri), s.token);
    let first = !m.id_by_uri.dom().contains(uri);
    let k: int = if first { 2 } else { 1 };
    assert(e[k] == EffectModel::Announce("daml-ide-bridge: "@ + title + " -> "@ + url));
    if s.auto_open && first {
        assert(e[3] == EffectModel::OpenBrowser(url));
    }
    if e.contains(EffectModel::OpenBrowser(url)) {
        let j = choose|j: int| 0 <= j < e.len() && e[j] == EffectModel::OpenBrowser(url);
        assert(s.auto_open && first);
    }
}

} // verus!
