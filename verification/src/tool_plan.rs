//! Planning the runs of the optional external tools: which tool runs with which
//! command and arguments, in which directory, and for which Cargo manifest. Running
//! them is left to the caller.
use vstd::prelude::*;

use crate::config::{spec_parent, parent_exec, text_views, IntegrationsConfig};
use crate::integrations::{path_join, spec_path_join, ExternalTool};
use crate::paths::{path_components, path_eq_exec, path_le, path_le_exec};
use crate::near_pipeline::clone_strings;
use crate::text::{chars_eq, chars_of, string_from_chars};

verus! {

/// The kind of a configuration file found in the workspace.
#[derive(Debug, Clone, Copy, PartialEq, Eq, Structural)]
pub enum ConfigFileKind {
    EslintConfig,
    BiomeConfig,
    TsconfigJson,
    RuffConfig,
    MypyConfig,
    PyprojectToml,
    PyrightConfig,
    SemgrepConfig,
    Other,
}

/// A configuration file of the workspace and its kind.
#[derive(Debug, Clone)]
pub struct WorkspaceConfigFile {
    pub path: String,
    pub kind: ConfigFileKind,
}

/// One planned run of an external tool.
#[derive(Debug, Clone)]
pub struct ToolInvocation {
    pub tool: ExternalTool,
    pub command: String,
    pub args: Vec<String>,
    pub cwd: String,
    pub manifest_dir: Option<String>,
}

/// The planned runs, and whether Clippy was asked for without a Cargo manifest to run on.
#[derive(Debug, Clone)]
pub struct ToolPlan {
    pub invocations: Vec<ToolInvocation>,
    pub clippy_without_manifest: bool,
}

/// A planned run as plain values.
pub struct InvocationView {
    pub tool: ExternalTool,
    pub command: Seq<char>,
    pub args: Seq<Seq<char>>,
    pub cwd: Seq<char>,
    pub manifest_dir: Option<Seq<char>>,
}

pub open spec fn invocation_view(i: ToolInvocation) -> InvocationView {
    InvocationView {
        tool: i.tool,
        command: i.command@,
        args: text_views(i.args@),
        cwd: i.cwd@,
        manifest_dir: match i.manifest_dir {
            Some(m) => Some(m@),
            None => None,
        },
    }
}

pub open spec fn invocation_views(s: Seq<ToolInvocation>) -> Seq<InvocationView> {
    s.map_values(|i: ToolInvocation| invocation_view(i))
}

/// A configuration file of this kind places a run of the tool in its directory.
pub open spec fn config_kind_matches(kind: ConfigFileKind, tool: ExternalTool) -> bool {
    match tool {
        ExternalTool::Eslint => kind == ConfigFileKind::EslintConfig,
        ExternalTool::Biome => kind == ConfigFileKind::BiomeConfig,
        ExternalTool::Tsc => kind == ConfigFileKind::TsconfigJson,
        ExternalTool::Ruff => kind == ConfigFileKind::RuffConfig || kind == ConfigFileKind::PyprojectToml,
        ExternalTool::Mypy => kind == ConfigFileKind::MypyConfig || kind == ConfigFileKind::PyprojectToml,
        ExternalTool::Pyright => kind == ConfigFileKind::PyrightConfig,
        ExternalTool::Semgrep => kind == ConfigFileKind::SemgrepConfig,
        ExternalTool::CargoCheck | ExternalTool::Clippy => false,
    }
}

/// The tool reads files of this language.
pub open spec fn file_matches(language: Seq<char>, tool: ExternalTool) -> bool {
    match tool {
        ExternalTool::Eslint | ExternalTool::Biome | ExternalTool::Tsc => language == "typescript"@ || language == "tsx"@,
        ExternalTool::Ruff | ExternalTool::Mypy | ExternalTool::Pyright => language == "python"@,
        ExternalTool::Semgrep => true,
        ExternalTool::CargoCheck | ExternalTool::Clippy => language == "rust"@,
    }
}

/// `p` added to a set of paths kept in path order, each once by its components: a path
/// already present by its components leaves the set as it is.
pub open spec fn path_insert(s: Seq<Seq<char>>, p: Seq<char>) -> Seq<Seq<char>>
    decreases s.len(),
{
    if s.len() == 0 {
        seq![p]
    } else if path_components(s[0]) == path_components(p) {
        s
    } else if path_le(p, s[0]) {
        seq![p] + s
    } else {
        seq![s[0]] + path_insert(s.drop_first(), p)
    }
}

/// The directories of the first `n` configuration files that place a run of the tool,
/// as a set in path order.
pub open spec fn config_roots(cfgs: Seq<WorkspaceConfigFile>, tool: ExternalTool, n: int) -> Seq<Seq<char>>
    decreases n,
{
    if n <= 0 {
        seq![]
    } else {
        let s = config_roots(cfgs, tool, n - 1);
        let c = cfgs[n - 1];
        if config_kind_matches(c.kind, tool) && spec_parent(c.path@) is Some {
            path_insert(s, spec_parent(c.path@)->0)
        } else {
            s
        }
    }
}

/// The directories a tool runs in: those of its configuration files, or else the scan
/// root when some file of the workspace is one it reads.
pub open spec fn tool_roots(root: Seq<char>, cfgs: Seq<WorkspaceConfigFile>, languages: Seq<Seq<char>>, tool: ExternalTool) -> Seq<Seq<char>> {
    let s = config_roots(cfgs, tool, cfgs.len() as int);
    if s.len() == 0 && exists|i: int| 0 <= i < languages.len() && file_matches(#[trigger] languages[i], tool) {
        seq![root]
    } else {
        s
    }
}

/// The runs of a tool configured by command and arguments, one per directory.
pub open spec fn tool_runs(
    enabled: bool,
    tool: ExternalTool,
    command: Seq<char>,
    args: Seq<Seq<char>>,
    root: Seq<char>,
    cfgs: Seq<WorkspaceConfigFile>,
    languages: Seq<Seq<char>>,
) -> Seq<InvocationView> {
    if enabled {
        tool_roots(root, cfgs, languages, tool).map_values(
            |cwd: Seq<char>| InvocationView { tool, command, args, cwd, manifest_dir: None },
        )
    } else {
        seq![]
    }
}

/// The runs of a Cargo tool: one at the root when the root's own manifest is listed,
/// else one per manifest, told its manifest path unless the arguments already name one.
pub open spec fn rust_runs(
    tool: ExternalTool,
    command: Seq<char>,
    args: Seq<Seq<char>>,
    root: Seq<char>,
    manifests: Seq<Seq<char>>,
) -> Seq<InvocationView> {
    if manifests.len() == 0 {
        seq![]
    } else if exists|i: int|
        0 <= i < manifests.len() && path_components(#[trigger] manifests[i]) == path_components(
            spec_path_join(root, "Cargo.toml"@),
        ) {
        seq![InvocationView { tool, command, args, cwd: root, manifest_dir: Some(root) }]
    } else {
        manifests.map_values(
            |m: Seq<char>|
                InvocationView {
                    tool,
                    command,
                    args: if args.contains("--manifest-path"@) {
                        args
                    } else {
                        args + seq!["--manifest-path"@, m]
                    },
                    cwd: root,
                    manifest_dir: spec_parent(m),
                },
        )
    }
}

/// Whether any tool is switched on.
pub open spec fn spec_any_enabled(c: IntegrationsConfig) -> bool {
    c.eslint || c.biome || c.tsc || c.ruff || c.mypy || c.pyright || c.cargo_check || c.clippy || c.semgrep
}

/// All planned runs, tool by tool in a fixed order.
pub open spec fn planned_invocations(
    c: IntegrationsConfig,
    root: Seq<char>,
    manifests: Seq<Seq<char>>,
    cfgs: Seq<WorkspaceConfigFile>,
    languages: Seq<Seq<char>>,
) -> Seq<InvocationView> {
    if !spec_any_enabled(c) {
        seq![]
    } else {
        tool_runs(c.eslint, ExternalTool::Eslint, c.eslint_command@, text_views(c.eslint_args@), root, cfgs, languages)
            + tool_runs(c.biome, ExternalTool::Biome, c.biome_command@, text_views(c.biome_args@), root, cfgs, languages)
            + tool_runs(c.tsc, ExternalTool::Tsc, c.tsc_command@, text_views(c.tsc_args@), root, cfgs, languages)
            + tool_runs(c.ruff, ExternalTool::Ruff, c.ruff_command@, text_views(c.ruff_args@), root, cfgs, languages)
            + tool_runs(c.mypy, ExternalTool::Mypy, c.mypy_command@, text_views(c.mypy_args@), root, cfgs, languages)
            + tool_runs(c.pyright, ExternalTool::Pyright, c.pyright_command@, text_views(c.pyright_args@), root, cfgs, languages)
            + tool_runs(c.semgrep, ExternalTool::Semgrep, c.semgrep_command@, text_views(c.semgrep_args@), root, cfgs, languages)
            + (if c.cargo_check {
            rust_runs(ExternalTool::CargoCheck, c.cargo_check_command@, text_views(c.cargo_check_args@), root, manifests)
        } else {
            seq![]
        }) + (if c.clippy {
            rust_runs(ExternalTool::Clippy, c.clippy_command@, text_views(c.clippy_args@), root, manifests)
        } else {
            seq![]
        })
    }
}

proof fn lemma_path_insert_skip(s: Seq<Seq<char>>, p: Seq<char>, i: int)
    requires
        0 <= i <= s.len(),
        forall|j: int| 0 <= j < i ==> path_components(#[trigger] s[j]) != path_components(p) && !path_le(p, s[j]),
    ensures
        path_insert(s, p) == s.take(i) + path_insert(s.skip(i), p),
    decreases i,
{
    if i > 0 {
        assert(path_components(s[0]) != path_components(p) && !path_le(p, s[0]));
        let t = s.drop_first();
        assert forall|j: int| 0 <= j < i - 1 implies path_components(#[trigger] t[j]) != path_components(p) && !path_le(p, t[j]) by {
            assert(t[j] == s[j + 1]);
        }
        lemma_path_insert_skip(t, p, i - 1);
        assert(t.skip(i - 1) =~= s.skip(i));
        assert(seq![s[0]] + t.take(i - 1) =~= s.take(i));
    } else {
        assert(s.skip(0) =~= s);
    }
}

fn insert_path(s: Vec<String>, p: String) -> (r: Vec<String>)
    ensures
        text_views(r@) == path_insert(text_views(s@), p@),
{
    let ghost sv = text_views(s@);
    let mut i: usize = 0;
    while i < s.len()
        invariant
            sv == text_views(s@),
            i <= s.len(),
            forall|j: int| 0 <= j < i ==> path_components(#[trigger] sv[j]) != path_components(p@) && !path_le(p@, sv[j]),
        decreases s.len() - i,
    {
        if path_eq_exec(s[i].as_str(), p.as_str()) {
            proof {
                lemma_path_insert_skip(sv, p@, i as int);
                assert(sv.skip(i as int)[0] == sv[i as int]);
                assert(sv.take(i as int) + sv.skip(i as int) =~= sv);
            }
            return s;
        }
        if path_le_exec(p.as_str(), s[i].as_str()) {
            proof {
                lemma_path_insert_skip(sv, p@, i as int);
                assert(sv.skip(i as int)[0] == sv[i as int]);
            }
            let mut out = s;
            out.insert(i, p);
            proof {
                assert(text_views(out@) =~= sv.take(i as int) + (seq![p@] + sv.skip(i as int)));
            }
            return out;
        }
        i = i + 1;
    }
    proof {
        lemma_path_insert_skip(sv, p@, i as int);
        assert(sv.skip(i as int) =~= Seq::<Seq<char>>::empty());
        assert(sv.take(i as int) =~= sv);
    }
    let mut out = s;
    out.push(p);
    assert(text_views(out@) =~= sv + seq![p@]);
    out
}

fn config_kind_matches_exec(kind: ConfigFileKind, tool: ExternalTool) -> (r: bool)
    ensures
        r == config_kind_matches(kind, tool),
{
    match tool {
        ExternalTool::Eslint => kind == ConfigFileKind::EslintConfig,
        ExternalTool::Biome => kind == ConfigFileKind::BiomeConfig,
        ExternalTool::Tsc => kind == ConfigFileKind::TsconfigJson,
        ExternalTool::Ruff => kind == ConfigFileKind::RuffConfig || kind == ConfigFileKind::PyprojectToml,
        ExternalTool::Mypy => kind == ConfigFileKind::MypyConfig || kind == ConfigFileKind::PyprojectToml,
        ExternalTool::Pyright => kind == ConfigFileKind::PyrightConfig,
        ExternalTool::Semgrep => kind == ConfigFileKind::SemgrepConfig,
        ExternalTool::CargoCheck | ExternalTool::Clippy => false,
    }
}

fn text_is(a: &String, b: &str) -> (r: bool)
    ensures
        r == (a@ == b@),
{
    chars_eq(chars_of(a.as_str()).as_slice(), chars_of(b).as_slice())
}

fn file_matches_exec(language: &String, tool: ExternalTool) -> (r: bool)
    ensures
        r == file_matches(language@, tool),
{
    match tool {
        ExternalTool::Eslint | ExternalTool::Biome | ExternalTool::Tsc => text_is(language, "typescript") || text_is(
            language,
            "tsx",
        ),
        ExternalTool::Ruff | ExternalTool::Mypy | ExternalTool::Pyright => text_is(language, "python"),
        ExternalTool::Semgrep => true,
        ExternalTool::CargoCheck | ExternalTool::Clippy => text_is(language, "rust"),
    }
}

fn roots_for_tool(root: &String, cfgs: &Vec<WorkspaceConfigFile>, languages: &Vec<String>, tool: ExternalTool) -> (r: Vec<String>)
    ensures
        text_views(r@) == tool_roots(root@, cfgs@, text_views(languages@), tool),
{
    let mut roots: Vec<String> = Vec::new();
    for k in 0..cfgs.len()
        invariant
            text_views(roots@) == config_roots(cfgs@, tool, k as int),
    {
        let c = &cfgs[k];
        if config_kind_matches_exec(c.kind, tool) {
            match parent_exec(&chars_of(c.path.as_str())) {
                Some(q) => {
                    roots = insert_path(roots, string_from_chars(q.as_slice()));
                },
                None => {},
            }
        }
    }
    if roots.len() == 0 {
        let ghost lv = text_views(languages@);
        let mut any = false;
        for i in 0..languages.len()
            invariant
                lv == text_views(languages@),
                any == exists|j: int| 0 <= j < i && file_matches(#[trigger] lv[j], tool),
        {
            assert(lv[i as int] == languages@[i as int]@);
            if !any && file_matches_exec(&languages[i], tool) {
                any = true;
                assert(file_matches(lv[i as int], tool));
            }
            proof {
                if !any {
                    assert(!file_matches(lv[i as int], tool));
                }
            }
        }
        if any {
            let mut out: Vec<String> = Vec::new();
            out.push(root.clone());
            assert(text_views(out@) =~= seq![root@]);
            return out;
        }
    }
    roots
}

fn tool_runs_exec(
    out: &mut Vec<ToolInvocation>,
    enabled: bool,
    tool: ExternalTool,
    command: &String,
    args: &Vec<String>,
    root: &String,
    cfgs: &Vec<WorkspaceConfigFile>,
    languages: &Vec<String>,
)
    ensures
        invocation_views(final(out)@) == invocation_views(old(out)@) + tool_runs(
            enabled,
            tool,
            command@,
            text_views(args@),
            root@,
            cfgs@,
            text_views(languages@),
        ),
{
    if !enabled {
        assert(invocation_views(out@) =~= invocation_views(out@) + Seq::<InvocationView>::empty());
        return;
    }
    let ghost start = invocation_views(out@);
    let roots = roots_for_tool(root, cfgs, languages, tool);
    let ghost want = tool_runs(enabled, tool, command@, text_views(args@), root@, cfgs@, text_views(languages@));
    for k in 0..roots.len()
        invariant
            enabled,
            text_views(roots@) == tool_roots(root@, cfgs@, text_views(languages@), tool),
            want == tool_runs(enabled, tool, command@, text_views(args@), root@, cfgs@, text_views(languages@)),
            invocation_views(out@) == start + want.take(k as int),
    {
        let ghost before = out@;
        out.push(
            ToolInvocation { tool, command: command.clone(), args: clone_strings(args), cwd: roots[k].clone(), manifest_dir: None },
        );
        assert(invocation_views(out@) =~= invocation_views(before).push(invocation_views(out@).last()));
        assert(want.take(k + 1) =~= want.take(k as int).push(want[k as int]));
    }
    assert(want.take(roots@.len() as int) =~= want);
}

fn rust_runs_exec(
    out: &mut Vec<ToolInvocation>,
    tool: ExternalTool,
    command: &String,
    args: &Vec<String>,
    root: &String,
    manifests: &Vec<String>,
)
    ensures
        invocation_views(final(out)@) == invocation_views(old(out)@) + rust_runs(
            tool,
            command@,
            text_views(args@),
            root@,
            text_views(manifests@),
        ),
{
    let ghost start = invocation_views(out@);
    let ghost mv = text_views(manifests@);
    let ghost av = text_views(args@);
    let ghost want = rust_runs(tool, command@, av, root@, mv);
    if manifests.len() == 0 {
        assert(invocation_views(out@) =~= start + want);
        return;
    }
    let root_manifest = string_from_chars(path_join(chars_of(root.as_str()).as_slice(), chars_of("Cargo.toml").as_slice()).as_slice());
    let mut listed = false;
    for i in 0..manifests.len()
        invariant
            mv == text_views(manifests@),
            root_manifest@ == spec_path_join(root@, "Cargo.toml"@),
            listed == exists|j: int| 0 <= j < i && path_components(#[trigger] mv[j]) == path_components(root_manifest@),
    {
        assert(mv[i as int] == manifests@[i as int]@);
        if !listed && path_eq_exec(manifests[i].as_str(), root_manifest.as_str()) {
            listed = true;
            assert(path_components(mv[i as int]) == path_components(root_manifest@));
        }
        proof {
            if !listed {
                assert(path_components(mv[i as int]) != path_components(root_manifest@));
            }
        }
    }
    if listed {
        let ghost before = out@;
        out.push(
            ToolInvocation {
                tool,
                command: command.clone(),
                args: clone_strings(args),
                cwd: root.clone(),
                manifest_dir: Some(root.clone()),
            },
        );
        assert(invocation_views(out@) =~= start + want);
        return;
    }
    let mut named = false;
    for i in 0..args.len()
        invariant
            av == text_views(args@),
            named == exists|j: int| 0 <= j < i && #[trigger] av[j] == "--manifest-path"@,
    {
        assert(av[i as int] == args@[i as int]@);
        if !named && text_is(&args[i], "--manifest-path") {
            named = true;
            assert(av[i as int] == "--manifest-path"@);
        }
    }
    assert(named == av.contains("--manifest-path"@));
    for k in 0..manifests.len()
        invariant
            mv == text_views(manifests@),
            av == text_views(args@),
            named == av.contains("--manifest-path"@),
            !(exists|j: int|
                0 <= j < mv.len() && path_components(#[trigger] mv[j]) == path_components(spec_path_join(root@, "Cargo.toml"@))),
            mv.len() > 0,
            want == rust_runs(tool, command@, av, root@, mv),
            invocation_views(out@) == start + want.take(k as int),
    {
        let mut a = clone_strings(args);
        if !named {
            a.push(string_from_chars(chars_of("--manifest-path").as_slice()));
            a.push(manifests[k].clone());
        }
        assert(text_views(a@) =~= (if av.contains("--manifest-path"@) {
            av
        } else {
            av + seq!["--manifest-path"@, mv[k as int]]
        }));
        let dir = match parent_exec(&chars_of(manifests[k].as_str())) {
            Some(q) => Some(string_from_chars(q.as_slice())),
            None => None,
        };
        let ghost before = out@;
        out.push(ToolInvocation { tool, command: command.clone(), args: a, cwd: root.clone(), manifest_dir: dir });
        assert(invocation_views(out@) =~= invocation_views(before).push(invocation_views(out@).last()));
        assert(want.take(k + 1) =~= want.take(k as int).push(want[k as int]));
    }
    assert(want.take(manifests@.len() as int) =~= want);
}

/// Plans the runs of the switched-on external tools: each workspace tool once per
/// directory of its configuration files (or at the root when only its files are
/// present), then cargo check and Clippy per manifest. Nothing is planned when no tool
/// is switched on. `languages` holds the language label of each workspace file.
pub fn plan_external_tools(
    config: &IntegrationsConfig,
    root: &String,
    cargo_tomls: &Vec<String>,
    config_files: &Vec<WorkspaceConfigFile>,
    languages: &Vec<String>,
) -> (r: ToolPlan)
    ensures
        invocation_views(r.invocations@) == planned_invocations(
            *config,
            root@,
            text_views(cargo_tomls@),
            config_files@,
            text_views(languages@),
        ),
        r.clippy_without_manifest == (spec_any_enabled(*config) && config.clippy && cargo_tomls@.len() == 0),
{
    let mut out: Vec<ToolInvocation> = Vec::new();
    if !config.any_enabled() {
        return ToolPlan { invocations: out, clippy_without_manifest: false };
    }
    let c = config;
    tool_runs_exec(&mut out, c.eslint, ExternalTool::Eslint, &c.eslint_command, &c.eslint_args, root, config_files, languages);
    tool_runs_exec(&mut out, c.biome, ExternalTool::Biome, &c.biome_command, &c.biome_args, root, config_files, languages);
    tool_runs_exec(&mut out, c.tsc, ExternalTool::Tsc, &c.tsc_command, &c.tsc_args, root, config_files, languages);
    tool_runs_exec(&mut out, c.ruff, ExternalTool::Ruff, &c.ruff_command, &c.ruff_args, root, config_files, languages);
    tool_runs_exec(&mut out, c.mypy, ExternalTool::Mypy, &c.mypy_command, &c.mypy_args, root, config_files, languages);
    tool_runs_exec(&mut out, c.pyright, ExternalTool::Pyright, &c.pyright_command, &c.pyright_args, root, config_files, languages);
    tool_runs_exec(&mut out, c.semgrep, ExternalTool::Semgrep, &c.semgrep_command, &c.semgrep_args, root, config_files, languages);
    let ghost mid = invocation_views(out@);
    if c.cargo_check {
        rust_runs_exec(&mut out, ExternalTool::CargoCheck, &c.cargo_check_command, &c.cargo_check_args, root, cargo_tomls);
    } else {
        assert(invocation_views(out@) =~= mid + Seq::<InvocationView>::empty());
    }
    let ghost mid2 = invocation_views(out@);
    let mut clippy_without_manifest = false;
    if c.clippy {
        rust_runs_exec(&mut out, ExternalTool::Clippy, &c.clippy_command, &c.clippy_args, root, cargo_tomls);
        clippy_without_manifest = cargo_tomls.len() == 0;
    } else {
        assert(invocation_views(out@) =~= mid2 + Seq::<InvocationView>::empty());
    }
    ToolPlan { invocations: out, clippy_without_manifest }
}

} // verus!
