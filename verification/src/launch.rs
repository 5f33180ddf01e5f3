//! The terminal launcher's decisions.
//!
//! A launch resolves a working directory (a stale path falls back to the
//! caller's home directory, so a launch is never blocked by one), resolves a
//! shell, and yields an ordered plan of spawn attempts: the caller tries
//! each in turn and stops at the first spawn that succeeds, never waiting on
//! the child.  Also here: the plan for a balance query's single request.

use vstd::prelude::*;

verus! {

broadcast use vstd::seq::group_seq_axioms, vstd::std_specs::vec::group_vec_axioms;

/// One process to try spawning: a program, its arguments, and a working
/// directory to spawn it in when one is set.
pub struct SpawnSpec {
    pub program: String,
    pub args: Vec<String>,
    pub current_dir: Option<String>,
}

/// The abstract spawn attempt.
#[verifier::ext_equal]
pub ghost struct SpawnSpecV {
    pub program: Seq<char>,
    pub args: Seq<Seq<char>>,
    pub current_dir: Option<Seq<char>>,
}

impl SpawnSpec {
    /// The abstract value of the attempt.
    pub open spec fn view(self) -> SpawnSpecV {
        SpawnSpecV {
            program: self.program@,
            args: self.args@.map_values(|s: String| s@),
            current_dir: match self.current_dir {
                Some(d) => Some(d@),
                None => None,
            },
        }
    }
}

/// The abstract plan: the attempts in order.
pub open spec fn plan_view(v: Seq<SpawnSpec>) -> Seq<SpawnSpecV> {
    v.map_values(|s: SpawnSpec| s.view())
}

/// The directory a launch runs in: the requested one when it exists, else
/// the caller's home directory, so a stale path never blocks a launch.
pub open spec fn spec_resolve_dir(requested: Seq<char>, dir_exists: bool, home: Seq<char>) -> Seq<
    char,
> {
    if dir_exists {
        requested
    } else {
        home
    }
}

/// Resolve the working directory for a launch.
pub fn resolve_dir(requested: &str, dir_exists: bool, home: &str) -> (r: String)
    ensures
        r@ == spec_resolve_dir(requested@, dir_exists, home@),
{
    if dir_exists {
        requested.to_owned()
    } else {
        home.to_owned()
    }
}

/// A string with every single quote doubled, as the shell command line
/// needs it.
pub open spec fn spec_sq_escape(s: Seq<char>) -> Seq<char>
    decreases s.len(),
{
    if s.len() == 0 {
        Seq::empty()
    } else {
        spec_sq_escape(s.drop_last()) + (if s.last() == '\'' {
            seq!['\'', '\'']
        } else {
            seq![s.last()]
        })
    }
}

/// Double every single quote in a string.
pub fn sq_escape(s: &str) -> (r: String)
    ensures
        r@ == spec_sq_escape(s@),
{
    let chars = crate::text::str_to_chars(s);
    let n = chars.len();
    let mut out: Vec<char> = Vec::new();
    let mut i: usize = 0;
    while i < n
        invariant
            i <= n,
            n == chars@.len(),
            chars@ == s@,
            out@ == spec_sq_escape(s@.take(i as int)),
        decreases n - i,
    {
        let c = chars[i];
        if c == '\'' {
            out.push('\'');
            out.push('\'');
        } else {
            out.push(c);
        }
        i = i + 1;
        proof {
            let t = s@.take(i as int);
            assert(t.drop_last() =~= s@.take(i - 1));
            assert(t.last() == s@[i - 1]);
            assert(out@ =~= spec_sq_escape(t));
        }
    }
    proof {
        assert(s@.take(n as int) =~= s@);
    }
    crate::text::chars_to_string(&out)
}

/// Whether a named terminal can be used: the dedicated emulator only when
/// the probe found it, anything else on trust.
pub open spec fn spec_terminal_available(terminal: Seq<char>, wt_installed: bool) -> bool {
    if terminal == "wt"@ {
        wt_installed
    } else {
        true
    }
}

/// Whether a named terminal can be used.
pub fn check_terminal_available(terminal: &str, wt_installed: bool) -> (r: bool)
    ensures
        r == spec_terminal_available(terminal@, wt_installed),
{
    if terminal.to_owned() == "wt".to_owned() {
        wt_installed
    } else {
        true
    }
}

/// The command string a POSIX shell runs: change to the directory, then run
/// the tool.
pub open spec fn spec_posix_command(dir: Seq<char>, command: Seq<char>) -> Seq<char> {
    "cd '"@ + dir + "' && "@ + command
}

/// The command string the Windows shells run: set the location, then run
/// the tool, the directory's quotes doubled.
pub open spec fn spec_pwsh_command(dir: Seq<char>, command: Seq<char>) -> Seq<char> {
    "Set-Location '"@ + spec_sq_escape(dir) + "'; "@ + command
}

/// The spawn attempts for a launch, in the order to try them.
pub open spec fn spec_launch_plan(
    command: Seq<char>,
    terminal: Seq<char>,
    requested_dir: Seq<char>,
    dir_exists: bool,
    home: Seq<char>,
    windows: bool,
    wt_installed: bool,
) -> Seq<SpawnSpecV> {
    let dir = spec_resolve_dir(requested_dir, dir_exists, home);
    if !windows {
        seq![
            SpawnSpecV {
                program: terminal,
                args: seq!["-c"@, spec_posix_command(dir, command)],
                current_dir: None,
            },
        ]
    } else if terminal == "wt"@ {
        let fallback = SpawnSpecV {
            program: "cmd"@,
            args: seq![
                "/C"@,
                "start"@,
                "\"\""@,
                "pwsh"@,
                "-NoExit"@,
                "-Command"@,
                spec_pwsh_command(dir, command),
            ],
            current_dir: None,
        };
        if wt_installed {
            seq![
                SpawnSpecV {
                    program: "wt"@,
                    args: seq!["-d"@, dir, "pwsh"@, "-NoExit"@, "-Command"@, command],
                    current_dir: None,
                },
                fallback,
            ]
        } else {
            seq![fallback]
        }
    } else if terminal == "cmd"@ {
        seq![
            SpawnSpecV {
                program: "cmd"@,
                args: seq![
                    "/C"@,
                    "start"@,
                    "\"\""@,
                    "cmd"@,
                    "/k"@,
                    "cd /d \""@ + dir + "\" && "@ + command,
                ],
                current_dir: None,
            },
        ]
    } else {
        seq![
            SpawnSpecV {
                program: "cmd"@,
                args: seq![
                    "/C"@,
                    "start"@,
                    "\"\""@,
                    terminal,
                    "-NoExit"@,
                    "-Command"@,
                    spec_pwsh_command(dir, command),
                ],
                current_dir: None,
            },
        ]
    }
}

/// Build the spawn attempts for launching the tool in a terminal: resolve
/// the directory, pick the paths for the platform and terminal, and order
/// them so the caller takes the first spawn that succeeds.
pub fn build_launch_plan(
    command: &str,
    terminal: &str,
    requested_dir: &str,
    dir_exists: bool,
    home: &str,
    windows: bool,
    wt_installed: bool,
) -> (r: Vec<SpawnSpec>)
    ensures
        plan_view(r@) == spec_launch_plan(command@, terminal@, requested_dir@, dir_exists, home@,
            windows, wt_installed),
{
    let ghost goal = spec_launch_plan(command@, terminal@, requested_dir@, dir_exists, home@,
        windows, wt_installed);
    let dir = resolve_dir(requested_dir, dir_exists, home);
    let mut plan: Vec<SpawnSpec> = Vec::new();
    if !windows {
        let mut args: Vec<String> = Vec::new();
        args.push("-c".to_owned());
        let mut cmdline = "cd '".to_owned();
        cmdline.append(dir.as_str());
        cmdline.append("' && ");
        cmdline.append(command);
        args.push(cmdline);
        plan.push(SpawnSpec { program: terminal.to_owned(), args, current_dir: None });
    } else if terminal.to_owned() == "wt".to_owned() {
        if wt_installed {
            let mut args: Vec<String> = Vec::new();
            args.push("-d".to_owned());
            args.push(dir.clone());
            args.push("pwsh".to_owned());
            args.push("-NoExit".to_owned());
            args.push("-Command".to_owned());
            args.push(command.to_owned());
            plan.push(SpawnSpec { program: "wt".to_owned(), args, current_dir: None });
        }
        plan.push(pwsh_fallback_spec(command, "pwsh", &dir));
    } else if terminal.to_owned() == "cmd".to_owned() {
        let mut args: Vec<String> = Vec::new();
        args.push("/C".to_owned());
        args.push("start".to_owned());
        args.push("\"\"".to_owned());
        args.push("cmd".to_owned());
        args.push("/k".to_owned());
        let mut cmdline = "cd /d \"".to_owned();
        cmdline.append(dir.as_str());
        cmdline.append("\" && ");
        cmdline.append(command);
        args.push(cmdline);
        plan.push(SpawnSpec { program: "cmd".to_owned(), args, current_dir: None });
    } else {
        plan.push(pwsh_fallback_spec(command, terminal, &dir));
    }
    proof {
        assert(plan_view(plan@) =~~= goal);
    }
    plan
}

/// The `cmd /C start` attempt that opens a PowerShell-style terminal on the
/// tool's command.
fn pwsh_fallback_spec(command: &str, shell: &str, dir: &String) -> (r: SpawnSpec)
    ensures
        r.view() == (SpawnSpecV {
            program: "cmd"@,
            args: seq![
                "/C"@,
                "start"@,
                "\"\""@,
                shell@,
                "-NoExit"@,
                "-Command"@,
                spec_pwsh_command(dir@, command@),
            ],
            current_dir: None,
        }),
{
    let mut args: Vec<String> = Vec::new();
    args.push("/C".to_owned());
    args.push("start".to_owned());
    args.push("\"\"".to_owned());
    args.push(shell.to_owned());
    args.push("-NoExit".to_owned());
    args.push("-Command".to_owned());
    let mut cmdline = "Set-Location '".to_owned();
    let escaped = sq_escape(dir.as_str());
    cmdline.append(escaped.as_str());
    cmdline.append("'; ");
    cmdline.append(command);
    args.push(cmdline);
    let r = SpawnSpec { program: "cmd".to_owned(), args, current_dir: None };
    proof {
        assert(r.view().args =~= seq![
            "/C"@,
            "start"@,
            "\"\""@,
            shell@,
            "-NoExit"@,
            "-Command"@,
            spec_pwsh_command(dir@, command@),
        ]);
    }
    r
}

/// A launch whose requested directory does not exist plans exactly what a
/// launch asked for the home directory plans: the stale path changes
/// nothing but the directory, and the launch still goes ahead.
pub proof fn lemma_missing_dir_uses_home(
    command: Seq<char>,
    terminal: Seq<char>,
    requested_dir: Seq<char>,
    home: Seq<char>,
    windows: bool,
    wt_installed: bool,
)
    ensures
        spec_launch_plan(command, terminal, requested_dir, false, home, windows, wt_installed)
            == spec_launch_plan(command, terminal, home, true, home, windows, wt_installed),
{
}

/// The single balance request: the key substituted into the URL, and the
/// method read case-insensitively.
pub struct BalanceRequest {
    pub url: String,
    pub use_get: bool,
}

/// A string with every `{apikey}` marker replaced by the token, leftmost
/// first, without overlap.
pub open spec fn spec_replace_key(s: Seq<char>, token: Seq<char>) -> Seq<char>
    decreases s.len(),
{
    if s.len() >= 8 && s.subrange(0, 8) == "{apikey}"@ {
        token + spec_replace_key(s.skip(8), token)
    } else if s.len() == 0 {
        Seq::empty()
    } else {
        seq![s[0]] + spec_replace_key(s.drop_first(), token)
    }
}

/// Whether the method asks for a GET, ignoring ASCII case; anything else is
/// sent as a POST.
pub open spec fn spec_is_get(m: Seq<char>) -> bool {
    m.len() == 3 && upper(m[0]) == 'G' && upper(m[1]) == 'E' && upper(m[2]) == 'T'
}

/// An ASCII letter's upper-case form; anything else stands as itself.
pub open spec fn upper(c: char) -> char {
    if 'a' <= c && c <= 'z' {
        (((c as u32) - 0x20) as u32) as char
    } else {
        c
    }
}

/// An ASCII letter's upper-case form.
fn upper_c(c: char) -> (r: char)
    ensures
        r == upper(c),
{
    if 'a' <= c && c <= 'z' {
        let u = (c as u32) - 0x20;
        proof {
            vstd::utf8::char_is_scalar(c);
        }
        crate::text::char_of_code(u)
    } else {
        c
    }
}

/// Plan the balance query: substitute the token into the URL and decide the
/// request method.
pub fn balance_request(url: &str, method: &str, token: &str) -> (r: BalanceRequest)
    ensures
        r.url@ == spec_replace_key(url@, token@),
        r.use_get == spec_is_get(method@),
{
    let chars = crate::text::str_to_chars(url);
    let token_chars = crate::text::str_to_chars(token);
    let n = chars.len();
    let mut out: Vec<char> = Vec::new();
    let mut i: usize = 0;
    proof {
        assert(url@.skip(0) =~= url@);
        assert(out@ + spec_replace_key(url@, token@) =~= spec_replace_key(url@, token@));
    }
    while i < n
        invariant
            i <= n,
            n == chars@.len(),
            chars@ == url@,
            token_chars@ == token@,
            out@ + spec_replace_key(url@.skip(i as int), token@) =~= spec_replace_key(
                url@,
                token@,
            ),
        decreases n - i,
    {
        let ghost rem = url@.skip(i as int);
        let ghost out_pre = out@;
        let marker = n - i >= 8 && chars[i] == '{' && chars[i + 1] == 'a' && chars[i + 2] == 'p'
            && chars[i + 3] == 'i' && chars[i + 4] == 'k' && chars[i + 5] == 'e' && chars[i + 6]
            == 'y' && chars[i + 7] == '}';
        proof {
            reveal_strlit("{apikey}");
            assert("{apikey}"@ =~= seq!['{', 'a', 'p', 'i', 'k', 'e', 'y', '}']);
            assert(forall|k: int| 0 <= k < rem.len() ==> rem[k] == url@[i + k]);
            if marker {
                assert(rem.subrange(0, 8) =~= "{apikey}"@);
            } else if rem.len() >= 8 {
                assert(rem.subrange(0, 8) != "{apikey}"@) by {
                    if rem.subrange(0, 8) =~= "{apikey}"@ {
                        assert(rem.subrange(0, 8)[0] == '{' && rem.subrange(0, 8)[1] == 'a'
                            && rem.subrange(0, 8)[2] == 'p' && rem.subrange(0, 8)[3] == 'i'
                            && rem.subrange(0, 8)[4] == 'k' && rem.subrange(0, 8)[5] == 'e'
                            && rem.subrange(0, 8)[6] == 'y' && rem.subrange(0, 8)[7] == '}');
                    }
                }
            }
        }
        if marker {
            let mut k: usize = 0;
            let ghost base = out@;
            while k < token_chars.len()
                invariant
                    k <= token_chars@.len(),
                    out@ == base + token_chars@.take(k as int),
                decreases token_chars@.len() - k,
            {
                out.push(token_chars[k]);
                k = k + 1;
                proof {
                    assert(token_chars@.take(k as int) =~= token_chars@.take(k - 1).push(
                        token_chars@[k - 1],
                    ));
                    assert(out@ =~= base + token_chars@.take(k as int));
                }
            }
            proof {
                assert(token_chars@.take(token_chars@.len() as int) =~= token_chars@);
                assert(rem.skip(8) =~= url@.skip(i + 8));
                assert(out@ + spec_replace_key(url@.skip(i + 8), token@) =~= out_pre + (token@
                    + spec_replace_key(rem.skip(8), token@)));
            }
            i = i + 8;
        } else {
            out.push(chars[i]);
            proof {
                assert(rem.drop_first() =~= url@.skip(i + 1));
                assert(out@ + spec_replace_key(url@.skip(i + 1), token@) =~= out_pre + (seq![
                    rem[0],
                ] + spec_replace_key(rem.drop_first(), token@)));
            }
            i = i + 1;
        }
    }
    proof {
        assert(url@.skip(i as int) =~= Seq::<char>::empty());
        assert(spec_replace_key(url@.skip(i as int), token@) =~= Seq::<char>::empty());
        assert(out@ =~= spec_replace_key(url@, token@));
    }
    let method_chars = crate::text::str_to_chars(method);
    let use_get = method_chars.len() == 3 && upper_c(method_chars[0]) == 'G' && upper_c(
        method_chars[1],
    ) == 'E' && upper_c(method_chars[2]) == 'T';
    BalanceRequest { url: crate::text::chars_to_string(&out), use_get }
}

} // verus!