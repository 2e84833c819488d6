//! Pure logic for locating and launching the Daml language server.

use vstd::prelude::*;

verus! {

/// The log levels `damlc multi-ide` accepts. `Telemetry` is deliberately not
/// offered.
#[derive(Debug, Clone, Copy, PartialEq, Eq, Structural)]
pub enum LogLevel {
    Debug,
    Info,
    /// The same default as the official VS Code extension.
    Warning,
    Error,
}

impl Default for LogLevel {
    fn default() -> (r: LogLevel)
        ensures
            r == LogLevel::Warning,
    {
        LogLevel::Warning
    }
}

/// The name `damlc` knows a level by.
pub open spec fn level_name(level: LogLevel) -> Seq<char> {
    match level {
        LogLevel::Debug => "Debug"@,
        LogLevel::Info => "Info"@,
        LogLevel::Warning => "Warning"@,
        LogLevel::Error => "Error"@,
    }
}

impl LogLevel {
    /// The name `damlc` knows the level by.
    pub fn as_str(self) -> (r: &'static str)
        ensures
            r@ == level_name(self),
    {
        match self {
            LogLevel::Debug => "Debug",
            LogLevel::Info => "Info",
            LogLevel::Warning => "Warning",
            LogLevel::Error => "Error",
        }
    }
}

/// User settings read from `lsp."daml-language-server".settings`.
#[derive(Debug, Clone)]
pub struct ServerSettings {
    pub log_level: LogLevel,
    pub extra_arguments: Vec<String>,
    /// Evaluate every Daml Script when a file is opened, so a failing script
    /// shows up as a diagnostic instead of staying silent until `dpm test`.
    pub autorun_scripts: bool,
    /// Proxy the language server through daml-ide-bridge, which serves script
    /// results to a browser.
    pub script_results: bool,
    /// Where to find the bridge, when it is not on PATH.
    pub bridge_path: Option<String>,
    pub bridge_args: Vec<String>,
}

impl Default for ServerSettings {
    fn default() -> (r: ServerSettings)
        ensures
            r.log_level == LogLevel::Warning,
            r.extra_arguments@.len() == 0,
            !r.autorun_scripts,
            r.script_results,
            r.bridge_path is None,
            r.bridge_args@.len() == 0,
    {
        ServerSettings {
            log_level: LogLevel::Warning,
            extra_arguments: Vec::new(),
            autorun_scripts: false,
            // On unless switched off, unlike a derived default.
            script_results: true,
            bridge_path: None,
            bridge_args: Vec::new(),
        }
    }
}

/// A resolved command line, independent of Zed's own `Command` type.
#[derive(Debug, Clone, PartialEq, Eq)]
pub struct ResolvedCommand {
    pub program: String,
    pub args: Vec<String>,
}

pub const INSTALL_HINT: &'static str = "Daml SDK not found: no `dpm` on PATH. Install it, then reopen the project - see https://docs.digitalasset.com/build/3.4/dpm/ - or point lsp.\"daml-language-server\".binary.path at it in your Zed settings.";

/// The texts of a list of strings.
pub open spec fn texts(v: Seq<String>) -> Seq<Seq<char>> {
    v.map_values(|s: String| s@)
}

/// The arguments `damlc multi-ide` is started with: telemetry off, the log
/// level, script auto-run when asked for, and the user's extra arguments
/// last.
pub open spec fn server_args(settings: ServerSettings) -> Seq<Seq<char>> {
    let fixed = seq![
        "damlc"@,
        "multi-ide"@,
        "--telemetry-ignored"@,
        "--log-level="@ + level_name(settings.log_level),
    ];
    let autorun = if settings.autorun_scripts {
        seq!["--studio-auto-run-all-scenarios=yes"@]
    } else {
        Seq::empty()
    };
    fixed + autorun + texts(settings.extra_arguments@)
}

/// The model of a resolved command: the program and its arguments.
pub open spec fn command_model(c: ResolvedCommand) -> (Seq<char>, Seq<Seq<char>>) {
    (c.program@, texts(c.args@))
}

/// How the language server is started, given where `dpm` and the bridge were
/// found: behind the bridge when one is available and script results are on,
/// directly otherwise, and not at all without `dpm`.
pub open spec fn resolution(
    dpm: Option<Seq<char>>,
    bridge: Option<Seq<char>>,
    settings: ServerSettings,
) -> Result<(Seq<char>, Seq<Seq<char>>), Seq<char>> {
    match dpm {
        None => Err(INSTALL_HINT@),
        Some(d) => match bridge {
            Some(b) if settings.script_results => Ok(
                (b, texts(settings.bridge_args@) + seq!["--"@, d] + server_args(settings)),
            ),
            _ => Ok((d, server_args(settings))),
        },
    }
}

/// Copies of a list of strings.
pub fn clone_strings(v: &Vec<String>) -> (r: Vec<String>)
    ensures
        texts(r@) == texts(v@),
{
    let mut r: Vec<String> = Vec::new();
    let mut i: usize = 0;
    while i < v.len()
        invariant
            0 <= i <= v@.len(),
            r@.len() == i,
            forall|j: int| 0 <= j < i ==> (#[trigger] r@[j])@ == v@[j]@,
        decreases v@.len() - i,
    {
        r.push(v[i].clone());
        i += 1;
    }
    assert(texts(r@) =~= texts(v@));
    r
}

/// Appends copies of `src` to `dst`.
pub fn extend_strings(dst: &mut Vec<String>, src: &Vec<String>)
    ensures
        texts(final(dst)@) == texts(old(dst)@) + texts(src@),
{
    let ghost start = dst@;
    let mut i: usize = 0;
    while i < src.len()
        invariant
            0 <= i <= src@.len(),
            dst@.len() == start.len() + i,
            forall|j: int| 0 <= j < start.len() ==> (#[trigger] dst@[j]) == start[j],
            forall|j: int| 0 <= j < i ==> (#[trigger] dst@[start.len() + j])@ == src@[j]@,
        decreases src@.len() - i,
    {
        dst.push(src[i].clone());
        i += 1;
    }
    assert forall|j: int| 0 <= j < dst@.len() implies #[trigger] texts(dst@)[j] == (texts(start) + texts(src@))[j] by {
        if j >= start.len() {
            assert(dst@[start.len() + (j - start.len())] == dst@[j]);
        }
    }
    assert(texts(dst@) =~= texts(start) + texts(src@));
}

/// `multi-ide` is always used. It can only be turned off with the legacy
/// Daml Assistant, and this extension targets Daml 3.4+ and dpm.
pub fn build_args(settings: &ServerSettings) -> (r: Vec<String>)
    ensures
        texts(r@) == server_args(*settings),
{
    let mut level = crate::text::chars_of("--log-level=");
    crate::text::append_str(&mut level, settings.log_level.as_str());
    let mut args: Vec<String> = Vec::new();
    args.push("damlc".to_owned());
    args.push("multi-ide".to_owned());
    args.push("--telemetry-ignored".to_owned());
    args.push(crate::text::string_of(level.as_slice()));
    if settings.autorun_scripts {
        // The flag damlc still expects; the VS Code extension passes the same one.
        args.push("--studio-auto-run-all-scenarios=yes".to_owned());
    }
    let ghost head = texts(args@);
    extend_strings(&mut args, &settings.extra_arguments);
    assert(texts(args@) =~= server_args(*settings));
    args
}

/// With a bridge available the language server runs behind it, which is
/// what makes script results viewable. Without one everything else still
/// works, so a missing bridge is not an error.
pub fn resolve_command(
    dpm_path: Option<String>,
    bridge_path: Option<String>,
    settings: &ServerSettings,
) -> (r: Result<ResolvedCommand, String>)
    ensures
        match resolution(
            match dpm_path { Some(d) => Some(d@), None => None },
            match bridge_path { Some(b) => Some(b@), None => None },
            *settings,
        ) {
            Ok(c) => r matches Ok(cmd) && command_model(cmd) == c,
            Err(e) => r matches Err(msg) && msg@ == e,
        },
{
    let dpm = match dpm_path {
        Some(d) => d,
        None => {
            return Err(INSTALL_HINT.to_owned());
        },
    };
    let server = build_args(settings);
    match bridge_path {
        Some(bridge) if settings.script_results => {
            let mut args = clone_strings(&settings.bridge_args);
            args.push("--".to_owned());
            args.push(dpm);
            let ghost head = texts(args@);
            extend_strings(&mut args, &server);
            assert(texts(args@) =~= texts(settings.bridge_args@) + seq!["--"@, dpm@] + server_args(*settings));
            Ok(ResolvedCommand { program: bridge, args })
        },
        _ => Ok(ResolvedCommand { program: dpm, args: server }),
    }
}

// ---------------------------------------------------------------- laws

/// A Zed extension cannot show a consent dialog, so telemetry stays off: the
/// arguments always say so, and none of those the extension adds itself
/// turns it on.
pub proof fn law_telemetry_stays_off(settings: ServerSettings)
    ensures
        server_args(settings).contains("--telemetry-ignored"@),
        forall|i: int|
            0 <= i < server_args(settings).len() - settings.extra_arguments@.len() ==> #[trigger] server_args(
                settings,
            )[i] != "--telemetry"@ && server_args(settings)[i] != "--optOutTelemetry"@,
{
    reveal_strlit("--telemetry-ignored");
    reveal_strlit("--telemetry");
    reveal_strlit("--optOutTelemetry");
    reveal_strlit("damlc");
    reveal_strlit("multi-ide");
    reveal_strlit("--log-level=");
    reveal_strlit("--studio-auto-run-all-scenarios=yes");
    let a = server_args(settings);
    assert(a[2] == "--telemetry-ignored"@);
    assert forall|i: int| 0 <= i < a.len() - settings.extra_arguments@.len() implies #[trigger] a[i]
        != "--telemetry"@ && a[i] != "--optOutTelemetry"@ by {
        if i == 3 {
            let l = "--log-level="@ + level_name(settings.log_level);
            assert(a[3] == l);
            assert(l[2] == 'l');
            assert("--telemetry"@[2] == 't' && "--optOutTelemetry"@[2] == 'o');
        } else if i == 4 {
            assert(a[4] == "--studio-auto-run-all-scenarios=yes"@);
            assert("--studio-auto-run-all-scenarios=yes"@.len() != "--telemetry"@.len());
            assert("--studio-auto-run-all-scenarios=yes"@.len() != "--optOutTelemetry"@.len());
        } else {
            assert(a[i] == seq!["damlc"@, "multi-ide"@, "--telemetry-ignored"@][i]);
        }
    }
}

/// The user's extra arguments come last, in their order, after everything
/// the extension adds.
pub proof fn law_extra_arguments_come_last(settings: ServerSettings)
    ensures
        server_args(settings).len() >= settings.extra_arguments@.len(),
        server_args(settings).skip(server_args(settings).len() - settings.extra_arguments@.len())
            == texts(settings.extra_arguments@),
{
    let a = server_args(settings);
    let fixed_len = a.len() - settings.extra_arguments@.len();
    assert(a.skip(fixed_len) =~= texts(settings.extra_arguments@));
}

/// The server always starts with the level the user chose, and runs scripts
/// on open exactly when asked to.
pub proof fn law_settings_reach_the_server(settings: ServerSettings)
    ensures
        server_args(settings)[3] == "--log-level="@ + level_name(settings.log_level),
        settings.autorun_scripts ==> server_args(settings)[4] == "--studio-auto-run-all-scenarios=yes"@,
        server_args(settings).take(2) == seq!["damlc"@, "multi-ide"@],
{
    assert(server_args(settings).take(2) =~= seq!["damlc"@, "multi-ide"@]);
}

/// Behind the bridge, the bridge's own arguments come first, then `--`, then
/// the server: `dpm` and the arguments it would have been started with
/// directly.
pub proof fn law_the_bridge_wraps_the_direct_command(
    dpm: Seq<char>,
    bridge: Seq<char>,
    settings: ServerSettings,
)
    requires
        settings.script_results,
    ensures
        resolution(Some(dpm), Some(bridge), settings) matches Ok((program, args)) && program == bridge
            && args == texts(settings.bridge_args@) + seq!["--"@] + seq![resolution(Some(dpm), None, settings)->Ok_0.0]
            + resolution(Some(dpm), None, settings)->Ok_0.1,
        resolution(Some(dpm), None, settings) == Ok::<(Seq<char>, Seq<Seq<char>>), Seq<char>>((dpm, server_args(settings))),
{
    assert(seq!["--"@, dpm] =~= seq!["--"@] + seq![dpm]);
    assert(texts(settings.bridge_args@) + seq!["--"@, dpm] + server_args(settings) =~= texts(settings.bridge_args@)
        + seq!["--"@] + seq![dpm] + server_args(settings));
}

/// Without `dpm` nothing can start, whatever else was found, and the error
/// says how to install it.
pub proof fn law_without_dpm_the_error_explains(bridge: Option<Seq<char>>, settings: ServerSettings)
    ensures
        resolution(None, bridge, settings) == Err::<(Seq<char>, Seq<Seq<char>>), Seq<char>>(INSTALL_HINT@),
{
}

} // verus!
