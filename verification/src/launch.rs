//! The decisions the shim launcher makes around its system calls: where the
//! tool name, `VP_HOME` and `vp.exe` lie relative to the shim's own path, the
//! command line handed to `vp.exe`, which environment changes it makes, and
//! the diagnostics it prints when a call fails.

use vstd::prelude::*;
use vstd::string::StringSliceAdditionalSpecFns;
use crate::cmdline::{
    eq_ascii, file_stem_len, format_u32, skip_program_argument, program_end, is_stem_len,
    decimal_digits, spec_eq_ascii, quote_count, ends_program_at, is_program_end,
    lemma_program_end_unique, lemma_quote_count_concat, lemma_quote_count_none,
    lemma_quote_count_single_quote, QUOTE,
};

verus! {

/// The Windows path separator `\`, as a UTF-16 code unit.
pub const BACKSLASH: u16 = 0x5C;
/// The alternative path separator `/`, as a UTF-16 code unit.
pub const SLASH: u16 = 0x2F;

/// `c` separates path components.
pub open spec fn is_separator(c: u16) -> bool {
    c == BACKSLASH || c == SLASH
}

/// The index of the last path separator in `path`, or `-1` when it has none.
pub open spec fn last_separator(path: Seq<u16>) -> int
    decreases path.len(),
{
    if path.len() == 0 {
        -1
    } else if is_separator(path.last()) {
        path.len() - 1
    } else {
        last_separator(path.drop_last())
    }
}

/// Each byte widened to a UTF-16 code unit.
pub open spec fn widen(bytes: Seq<u8>) -> Seq<u16> {
    bytes.map_values(|b: u8| b as u16)
}

/// `slice` followed by a NUL code unit.
pub fn nul_terminated(slice: &[u16]) -> (r: Vec<u16>)
    ensures
        r@ == slice@.push(0),
{
    let mut out: Vec<u16> = Vec::new();
    append_wide(&mut out, slice);
    out.push(0);
    out
}

/// Append the code units of `more` to `out`.
fn append_wide(out: &mut Vec<u16>, more: &[u16])
    ensures
        final(out)@ == old(out)@ + more@,
{
    let mut i: usize = 0;
    while i < more.len()
        invariant
            i <= more@.len(),
            out@ == old(out)@ + more@.take(i as int),
        decreases more@.len() - i,
    {
        proof {
            assert(more@.take(i + 1) =~= more@.take(i as int).push(more@[i as int]));
        }
        out.push(more[i]);
        i += 1;
    }
    proof {
        assert(more@.take(i as int) =~= more@);
    }
}

/// Append the bytes of `more` to `out`.
fn append_bytes(out: &mut Vec<u8>, more: &[u8])
    ensures
        final(out)@ == old(out)@ + more@,
{
    let mut i: usize = 0;
    while i < more.len()
        invariant
            i <= more@.len(),
            out@ == old(out)@ + more@.take(i as int),
        decreases more@.len() - i,
    {
        proof {
            assert(more@.take(i + 1) =~= more@.take(i as int).push(more@[i as int]));
        }
        out.push(more[i]);
        i += 1;
    }
    proof {
        assert(more@.take(i as int) =~= more@);
    }
}

/// The index of the last path separator in `path`, if it has one.
fn find_last_separator(path: &[u16]) -> (r: Option<usize>)
    ensures
        match r {
            Some(i) => i == last_separator(path@) && i < path.len(),
            None => last_separator(path@) == -1,
        },
        last_separator(path@) < path@.len(),
{
    let ghost s = path@;
    let mut k: usize = path.len();
    proof {
        assert(s.take(k as int) =~= s);
    }
    while k > 0
        invariant
            s == path@,
            k <= s.len(),
            last_separator(s) == last_separator(s.take(k as int)),
        decreases k,
    {
        proof {
            assert(s.take(k as int).drop_last() =~= s.take(k - 1));
        }
        if path[k - 1] == BACKSLASH || path[k - 1] == SLASH {
            proof {
                lemma_last_separator_bounds(s);
            }
            return Some(k - 1);
        }
        k -= 1;
    }
    proof {
        assert(s.take(0) =~= Seq::<u16>::empty());
        lemma_last_separator_bounds(s);
    }
    None
}

proof fn lemma_last_separator_bounds(path: Seq<u16>)
    ensures
        -1 <= last_separator(path) < path.len(),
        last_separator(path) >= 0 ==> is_separator(path[last_separator(path)]),
    decreases path.len(),
{
    if path.len() > 0 && !is_separator(path.last()) {
        lemma_last_separator_bounds(path.drop_last());
    }
}

/// Where `vp.exe` lies below `VP_HOME`.
pub const VP_EXE_SUFFIX: &'static str = "\\current\\bin\\vp.exe";

/// Append each byte of `more` to `out`, widened to a code unit.
fn append_widened(out: &mut Vec<u16>, more: &[u8])
    ensures
        final(out)@ == old(out)@ + widen(more@),
{
    let mut i: usize = 0;
    while i < more.len()
        invariant
            i <= more@.len(),
            out@ == old(out)@ + widen(more@.take(i as int)),
        decreases more@.len() - i,
    {
        proof {
            assert(widen(more@.take(i + 1)) =~= widen(more@.take(i as int)).push(more@[i as int] as u16));
        }
        out.push(more[i] as u16);
        i += 1;
    }
    proof {
        assert(more@.take(i as int) =~= more@);
    }
}

/// Why the shim's own path does not say where `vp.exe` lies.
#[derive(Debug, Clone, Copy, PartialEq, Eq, Structural)]
pub enum ShimPathError {
    /// The path has no separator, so the shim directory is unknown.
    NoShimDirectory,
    /// The shim directory has no parent, so `VP_HOME` is unknown.
    NoHome,
}

/// What the shim learns from its own path.
pub struct ShimPaths {
    /// The tool the shim stands for: the stem of the shim's file name.
    pub tool: Vec<u16>,
    /// The parent of the shim directory.
    pub vp_home: Vec<u16>,
    /// `<vp_home>\current\bin\vp.exe`, NUL-terminated.
    pub vp_exe: Vec<u16>,
}

/// The shim's own file name: what follows the last separator of `exe`.
pub open spec fn file_name_of(exe: Seq<u16>) -> Seq<u16> {
    exe.skip(last_separator(exe) + 1)
}

/// `VP_HOME` for the shim at `exe`: everything before the last separator of
/// the shim's directory.
pub open spec fn vp_home_of(exe: Seq<u16>) -> Seq<u16> {
    let bin_dir = exe.take(last_separator(exe));
    bin_dir.take(last_separator(bin_dir))
}

/// The NUL-terminated path of `vp.exe` below `vp_home`.
pub open spec fn vp_exe_of(vp_home: Seq<u16>) -> Seq<u16> {
    (vp_home + widen(VP_EXE_SUFFIX.spec_bytes())).push(0)
}

/// Resolve the tool name, `VP_HOME` and the path of `vp.exe` from the shim's
/// own path: the tool is the file stem of the shim, the shim directory is
/// its parent, `VP_HOME` is the parent of that, and `vp.exe` lies at
/// `<VP_HOME>\current\bin\vp.exe`. Both `\` and `/` separate components.
pub fn shim_paths(exe: &[u16]) -> (r: Result<ShimPaths, ShimPathError>)
    ensures
        r == Err::<ShimPaths, ShimPathError>(ShimPathError::NoShimDirectory) <==> last_separator(exe@) == -1,
        r == Err::<ShimPaths, ShimPathError>(ShimPathError::NoHome) <==> (last_separator(exe@) >= 0
            && last_separator(exe@.take(last_separator(exe@))) == -1),
        r matches Ok(p) ==> {
            &&& is_stem_len(file_name_of(exe@), p.tool@.len() as int)
            &&& p.tool@ == file_name_of(exe@).take(p.tool@.len() as int)
            &&& p.vp_home@ == vp_home_of(exe@)
            &&& p.vp_exe@ == vp_exe_of(p.vp_home@)
            &&& p.vp_exe@ == p.vp_home@ + seq![
                0x5Cu16, 0x63u16, 0x75u16, 0x72u16, 0x72u16, 0x65u16, 0x6Eu16, 0x74u16, 0x5Cu16,
                0x62u16, 0x69u16, 0x6Eu16, 0x5Cu16, 0x76u16, 0x70u16, 0x2Eu16, 0x65u16, 0x78u16, 0x65u16,
                0x00u16,
            ]
        },
{
    let last_sep: usize = match find_last_separator(exe) {
        Some(i) => i,
        None => return Err(ShimPathError::NoShimDirectory),
    };
    let file_name = &exe[last_sep + 1..exe.len()];
    let stem: usize = file_stem_len(file_name);
    let bin_dir = &exe[0..last_sep];
    let home_sep: usize = match find_last_separator(bin_dir) {
        Some(i) => i,
        None => return Err(ShimPathError::NoHome),
    };
    let mut tool: Vec<u16> = Vec::new();
    append_wide(&mut tool, &file_name[0..stem]);
    let mut vp_home: Vec<u16> = Vec::new();
    append_wide(&mut vp_home, &exe[0..home_sep]);
    let mut vp_exe: Vec<u16> = Vec::new();
    append_wide(&mut vp_exe, vp_home.as_slice());
    append_widened(&mut vp_exe, VP_EXE_SUFFIX.as_bytes());
    vp_exe.push(0);
    proof {
        assert(bin_dir@ =~= exe@.take(last_sep as int));
        assert(exe@.take(last_sep as int).take(home_sep as int) =~= exe@.take(home_sep as int));
        assert(file_name@ =~= file_name_of(exe@));
        lemma_vp_exe_path(vp_home@);
    }
    Ok(ShimPaths { tool, vp_home, vp_exe })
}

/// The command line for `vp.exe`: its path in quotes, then the caller's
/// command line after its program argument, verbatim (leading whitespace
/// included), then a NUL. `vp_exe` is the NUL-terminated path of `vp.exe`;
/// Windows paths cannot hold quotes, so quoting it is enough.
pub fn child_command_line(vp_exe: &[u16], cmdline: &[u16]) -> (r: Vec<u16>)
    requires
        vp_exe@.len() >= 1,
    ensures
        r@ == (seq![QUOTE] + vp_exe@.drop_last() + seq![QUOTE] + cmdline@.skip(program_end(cmdline@))).push(0),
{
    let start: usize = skip_program_argument(cmdline);
    let mut out: Vec<u16> = Vec::new();
    out.push(QUOTE);
    append_wide(&mut out, &vp_exe[0..vp_exe.len() - 1]);
    out.push(QUOTE);
    append_wide(&mut out, &cmdline[start..cmdline.len()]);
    out.push(0);
    proof {
        assert(vp_exe@.subrange(0, vp_exe@.len() - 1) =~= vp_exe@.drop_last());
        assert(cmdline@.subrange(start as int, cmdline@.len() as int) =~= cmdline@.skip(start as int));
        assert(seq![QUOTE].push(QUOTE) =~= seq![QUOTE, QUOTE]);
    }
    out
}

/// The tool is `vp` itself, so `vp.exe` runs in its normal CLI mode.
pub fn runs_as_vp(tool: &[u16]) -> (r: bool)
    ensures
        r == spec_eq_ascii(tool@, "vp".spec_bytes()),
{
    eq_ascii(tool, "vp".as_bytes())
}

/// An environment variable that the shim sets or removes for `vp.exe`.
#[derive(Debug, Clone, Copy, PartialEq, Eq, Structural)]
pub enum EnvVar {
    /// `VP_HOME`: the home directory `vp.exe` uses.
    VpHome,
    /// `VP_SHIM_TOOL`: the tool `vp.exe` dispatches to as a shim.
    VpShimTool,
    /// `VP_TOOL_RECURSION`: the marker of a nested shim invocation.
    VpToolRecursion,
}

/// The name of `var`.
pub open spec fn env_var_name(var: EnvVar) -> &'static str {
    match var {
        EnvVar::VpHome => "VP_HOME",
        EnvVar::VpShimTool => "VP_SHIM_TOOL",
        EnvVar::VpToolRecursion => "VP_TOOL_RECURSION",
    }
}

impl EnvVar {
    /// The variable's name, in ASCII.
    pub fn name(&self) -> (r: &'static str)
        ensures
            r == env_var_name(*self),
    {
        match self {
            EnvVar::VpHome => "VP_HOME",
            EnvVar::VpShimTool => "VP_SHIM_TOOL",
            EnvVar::VpToolRecursion => "VP_TOOL_RECURSION",
        }
    }
}

/// One change to the environment that `vp.exe` inherits: set `var` to the
/// NUL-terminated `value`, or remove it where `value` is `None`.
pub struct EnvChange {
    /// The variable changed.
    pub var: EnvVar,
    /// The NUL-terminated new value, or `None` to remove the variable.
    pub value: Option<Vec<u16>>,
}

/// The environment changes for the tool `tool` of the shim under `vp_home`,
/// in order: `VP_HOME` is always set; unless the tool is `vp` itself,
/// `VP_SHIM_TOOL` is set to the tool, so that `vp.exe` enters shim dispatch,
/// and `VP_TOOL_RECURSION` is removed, so that nested shim invocations get
/// fresh version resolution.
pub fn env_changes(tool: &[u16], vp_home: &[u16]) -> (r: Vec<EnvChange>)
    ensures
        r@.len() == if spec_eq_ascii(tool@, "vp".spec_bytes()) { 1int } else { 3int },
        r@[0].var == EnvVar::VpHome,
        r@[0].value matches Some(v) && v@ == vp_home@.push(0),
        !spec_eq_ascii(tool@, "vp".spec_bytes()) ==> {
            &&& r@[1].var == EnvVar::VpShimTool
            &&& r@[1].value matches Some(v) && v@ == tool@.push(0)
            &&& r@[2].var == EnvVar::VpToolRecursion
            &&& r@[2].value is None
        },
{
    let mut out: Vec<EnvChange> = Vec::new();
    out.push(EnvChange { var: EnvVar::VpHome, value: Some(nul_terminated(vp_home)) });
    if !runs_as_vp(tool) {
        out.push(EnvChange { var: EnvVar::VpShimTool, value: Some(nul_terminated(tool)) });
        out.push(EnvChange { var: EnvVar::VpToolRecursion, value: None });
    }
    out
}

/// `ERROR_FILE_NOT_FOUND`.
pub const ERROR_FILE_NOT_FOUND: u32 = 2;
/// `ERROR_PATH_NOT_FOUND`.
pub const ERROR_PATH_NOT_FOUND: u32 = 3;
/// `ERROR_ENVVAR_NOT_FOUND`.
pub const ERROR_ENVVAR_NOT_FOUND: u32 = 203;

/// A failed environment change needs no report: removing a variable that is
/// not set reports `ERROR_ENVVAR_NOT_FOUND`.
pub fn env_failure_is_benign(removing: bool, error: u32) -> (r: bool)
    ensures
        r == (removing && error == ERROR_ENVVAR_NOT_FOUND),
{
    removing && error == ERROR_ENVVAR_NOT_FOUND
}

/// The bytes of `text` appended to `out`.
fn append_str(out: &mut Vec<u8>, text: &str)
    ensures
        final(out)@ == old(out)@ + text.spec_bytes(),
{
    append_bytes(out, text.as_bytes());
}

/// The decimal digits of `value` appended to `out`.
fn append_decimal(out: &mut Vec<u8>, value: u32)
    ensures
        final(out)@ == old(out)@ + decimal_digits(value as nat),
{
    let mut buf: [u8; 10] = [0u8; 10];
    let digits = format_u32(value, &mut buf);
    append_bytes(out, digits);
}

/// The report of a failed Win32 call:
/// `vite-plus shim: <what> failed (Windows error <error>)` and a newline.
pub fn call_failure_message(what: &[u8], error: u32) -> (r: Vec<u8>)
    ensures
        r@ == "vite-plus shim: ".spec_bytes() + what@ + " failed (Windows error ".spec_bytes()
            + decimal_digits(error as nat) + ")\n".spec_bytes(),
{
    let mut out: Vec<u8> = Vec::new();
    append_str(&mut out, "vite-plus shim: ");
    append_bytes(&mut out, what);
    append_str(&mut out, " failed (Windows error ");
    append_decimal(&mut out, error);
    append_str(&mut out, ")\n");
    proof {
        assert(Seq::<u8>::empty() + "vite-plus shim: ".spec_bytes() =~= "vite-plus shim: ".spec_bytes());
    }
    out
}

/// The report of a failed change of `var`:
/// `vite-plus shim: SetEnvironmentVariableW(<name>) failed (Windows error <error>)`
/// and a newline.
pub fn env_failure_message(var: EnvVar, error: u32) -> (r: Vec<u8>)
    ensures
        r@ == "vite-plus shim: SetEnvironmentVariableW(".spec_bytes() + env_var_name(var).spec_bytes()
            + ") failed (Windows error ".spec_bytes() + decimal_digits(error as nat) + ")\n".spec_bytes(),
{
    let mut out: Vec<u8> = Vec::new();
    append_str(&mut out, "vite-plus shim: SetEnvironmentVariableW(");
    append_str(&mut out, var.name());
    append_str(&mut out, ") failed (Windows error ");
    append_decimal(&mut out, error);
    append_str(&mut out, ")\n");
    proof {
        assert(Seq::<u8>::empty() + "vite-plus shim: SetEnvironmentVariableW(".spec_bytes()
            =~= "vite-plus shim: SetEnvironmentVariableW(".spec_bytes());
    }
    out
}

/// The error code says that a file or directory on the path is missing.
pub open spec fn is_missing_file(error: u32) -> bool {
    error == ERROR_FILE_NOT_FOUND || error == ERROR_PATH_NOT_FOUND
}

/// The report of a failed start of `vp.exe`, whose path is `vp_exe` in
/// UTF-8: `vite-plus: failed to execute "<path>" (Windows error <error>)`,
/// then, where the error says that a file or directory is missing, a hint to
/// reinstall, then a newline.
pub fn spawn_failure_message(vp_exe: &[u8], error: u32) -> (r: Vec<u8>)
    ensures
        r@ == "vite-plus: failed to execute \"".spec_bytes() + vp_exe@ + "\" (Windows error ".spec_bytes()
            + decimal_digits(error as nat) + ")".spec_bytes()
            + (if is_missing_file(error) {
                ": vp.exe is missing; reinstall vite-plus or run `vp env setup`".spec_bytes()
            } else {
                Seq::<u8>::empty()
            }) + "\n".spec_bytes(),
{
    let mut out: Vec<u8> = Vec::new();
    append_str(&mut out, "vite-plus: failed to execute \"");
    append_bytes(&mut out, vp_exe);
    append_str(&mut out, "\" (Windows error ");
    append_decimal(&mut out, error);
    append_str(&mut out, ")");
    let ghost before_hint = out@;
    if error == ERROR_FILE_NOT_FOUND || error == ERROR_PATH_NOT_FOUND {
        append_str(&mut out, ": vp.exe is missing; reinstall vite-plus or run `vp env setup`");
    } else {
        assert(out@ =~= before_hint + Seq::<u8>::empty());
    }
    append_str(&mut out, "\n");
    proof {
        assert(Seq::<u8>::empty() + "vite-plus: failed to execute \"".spec_bytes()
            =~= "vite-plus: failed to execute \"".spec_bytes());
    }
    out
}

/// The report of a shim path that does not say where `vp.exe` lies, with the
/// path `exe` in UTF-8: `vite-plus shim: cannot resolve the shim directory
/// from "<exe>"` or `vite-plus shim: cannot resolve VP_HOME from "<exe>"`,
/// and a newline.
pub fn shim_path_error_message(error: ShimPathError, exe: &[u8]) -> (r: Vec<u8>)
    ensures
        r@ == match error {
            ShimPathError::NoShimDirectory => "vite-plus shim: cannot resolve the shim directory from \"".spec_bytes(),
            ShimPathError::NoHome => "vite-plus shim: cannot resolve VP_HOME from \"".spec_bytes(),
        } + exe@ + "\"\n".spec_bytes(),
{
    let mut out: Vec<u8> = Vec::new();
    match error {
        ShimPathError::NoShimDirectory => {
            append_str(&mut out, "vite-plus shim: cannot resolve the shim directory from \"");
        },
        ShimPathError::NoHome => {
            append_str(&mut out, "vite-plus shim: cannot resolve VP_HOME from \"");
        },
    }
    proof {
        assert(out@ =~= match error {
            ShimPathError::NoShimDirectory => "vite-plus shim: cannot resolve the shim directory from \"".spec_bytes(),
            ShimPathError::NoHome => "vite-plus shim: cannot resolve VP_HOME from \"".spec_bytes(),
        });
    }
    append_bytes(&mut out, exe);
    append_str(&mut out, "\"\n");
    out
}

/// The exit code that reports a child's end status, given the signal that
/// terminated it and the code it exited with, where there is one: a signal
/// `s` becomes `128 + s` (the shell's convention), an exit code stays as it
/// is, and a status with neither becomes `1`.
pub fn exit_code_from_status(signal: Option<i32>, code: Option<i32>) -> (r: i32)
    requires
        signal matches Some(s) ==> s <= i32::MAX - 128,
    ensures
        r as int == match signal {
            Some(s) => 128 + s,
            None => match code {
                Some(c) => c as int,
                None => 1int,
            },
        },
{
    if let Some(s) = signal {
        return 128 + s;
    }
    match code {
        Some(c) => c,
        None => 1,
    }
}

/// What to do after asking for the module path with a buffer of `capacity`
/// code units, which reported `len`.
#[derive(Debug, Clone, Copy, PartialEq, Eq, Structural)]
pub enum ModulePathStep {
    /// The call failed.
    Failed,
    /// The path fits: it is the first `len` code units.
    Done(usize),
    /// The path was cut short: grow the buffer by this many code units and ask again.
    Grow(usize),
}

/// Decide the next step of reading the module path: a length of zero is a
/// failure, a length below the capacity is the whole path, and otherwise the
/// path was truncated and the buffer grows by twice its capacity.
pub fn module_path_step(len: u32, capacity: usize) -> (r: ModulePathStep)
    requires
        capacity <= usize::MAX / 2,
    ensures
        len == 0 ==> r == ModulePathStep::Failed,
        0 < len < capacity ==> r == ModulePathStep::Done(len as usize),
        0 < len && capacity <= len ==> r == ModulePathStep::Grow((2 * capacity) as usize),
{
    if len == 0 {
        ModulePathStep::Failed
    } else if (len as usize) < capacity {
        ModulePathStep::Done(len as usize)
    } else {
        ModulePathStep::Grow(capacity * 2)
    }
}

/// `STARTF_USESTDHANDLES`.
pub const STARTF_USESTDHANDLES: u32 = 0x0000_0100;

/// The parent redirected the standard handles (`STARTF_USESTDHANDLES` is set
/// in the startup flags), so they are made inheritable for `vp.exe`.
pub fn forwards_std_handles(flags: u32) -> (r: bool)
    ensures
        r == (flags & STARTF_USESTDHANDLES != 0),
{
    flags & STARTF_USESTDHANDLES != 0
}

/// `vp.exe` receives the caller's arguments unchanged: when the path of
/// `vp.exe` holds no quote, the program argument of the child's command line
/// is exactly the quoted path, and what follows it is exactly what followed
/// the program argument in the caller's command line.
pub proof fn lemma_child_sees_caller_arguments(vp_exe: Seq<u16>, cmdline: Seq<u16>)
    requires
        vp_exe.len() >= 1,
        forall|k: int| 0 <= k < vp_exe.len() ==> #[trigger] vp_exe[k] != QUOTE,
    ensures
        ({
            let path = vp_exe.drop_last();
            let tail = cmdline.skip(program_end(cmdline));
            let child = seq![QUOTE] + path + seq![QUOTE] + tail;
            &&& program_end(child) == path.len() + 2
            &&& child.skip(program_end(child)) == tail
        }),
{
    let path = vp_exe.drop_last();
    let tail = cmdline.skip(program_end(cmdline));
    let head = seq![QUOTE] + path + seq![QUOTE];
    let child = head + tail;
    let n: int = path.len() as int;
    lemma_program_end_unique(cmdline, program_end(cmdline));
    assert forall|k: int| 0 <= k < path.len() implies #[trigger] path[k] != QUOTE by {
        assert(path[k] == vp_exe[k]);
    }
    assert forall|j: int| 0 <= j < n + 2 implies !ends_program_at(child, j) by {
        if j == 0 {
            assert(child[0] == QUOTE);
        } else if j == n + 1 {
            assert(child[j] == QUOTE);
        } else {
            assert(child.take(j) =~= seq![QUOTE] + path.take(j - 1));
            assert forall|k: int| 0 <= k < path.take(j - 1).len() implies #[trigger] path.take(j - 1)[k] != QUOTE by {
                assert(path.take(j - 1)[k] == path[k]);
            }
            lemma_quote_count_none(path.take(j - 1));
            lemma_quote_count_concat(seq![QUOTE], path.take(j - 1));
            lemma_quote_count_single_quote();
        }
    }
    if tail.len() > 0 {
        assert(child.take(n + 2) =~= head);
        lemma_quote_count_none(path);
        lemma_quote_count_concat(seq![QUOTE], path);
        lemma_quote_count_concat(seq![QUOTE] + path, seq![QUOTE]);
        lemma_quote_count_single_quote();
        assert(tail[0] == cmdline[program_end(cmdline)]);
        assert(child[n + 2] == tail[0]);
        assert(child.take(n + 2)[0] == QUOTE);
        assert(ends_program_at(child, n + 2));
    }
    assert(is_program_end(child, n + 2));
    lemma_program_end_unique(child, n + 2);
    assert(child.skip(n + 2) =~= tail);
}

/// The shim's layout is `<VP_HOME>\<bin>\<file name>`: for a home path, a
/// directory name and a file name, the latter two without a `\` (0x5C) or a
/// `/` (0x2F), joined by either separator, the shim's file name and
/// `VP_HOME` come out as those parts, whatever other code units they hold.
pub proof fn lemma_shim_layout(home: Seq<u16>, sep1: u16, bin: Seq<u16>, sep2: u16, file_name: Seq<u16>)
    requires
        sep1 == 0x5Cu16 || sep1 == 0x2Fu16,
        sep2 == 0x5Cu16 || sep2 == 0x2Fu16,
        forall|k: int| 0 <= k < bin.len() ==> #[trigger] bin[k] != 0x5Cu16 && bin[k] != 0x2Fu16,
        forall|k: int| 0 <= k < file_name.len() ==> #[trigger] file_name[k] != 0x5Cu16 && file_name[k] != 0x2Fu16,
    ensures
        ({
            let exe = home + seq![sep1] + bin + seq![sep2] + file_name;
            &&& file_name_of(exe) == file_name
            &&& vp_home_of(exe) == home
        }),
{
    let bin_dir = home + seq![sep1] + bin;
    let exe = bin_dir + seq![sep2] + file_name;
    lemma_last_separator_after(bin_dir + seq![sep2], file_name);
    lemma_last_separator_after(home + seq![sep1], bin);
    assert(exe =~= (bin_dir + seq![sep2]) + file_name);
    assert(bin_dir =~= (home + seq![sep1]) + bin);
    assert(exe.take(bin_dir.len() as int) =~= bin_dir);
    assert(bin_dir.take(home.len() as int) =~= home);
    assert(exe.skip(bin_dir.len() as int + 1) =~= file_name);
}

/// A path has no separator exactly when it holds no `\` (0x5C) and no `/`
/// (0x2F); otherwise its last separator is a `\` or a `/` with neither after it.
pub proof fn lemma_last_separator_is_slash(path: Seq<u16>)
    ensures
        last_separator(path) == -1 <==> forall|k: int| 0 <= k < path.len() ==> #[trigger] path[k] != 0x5Cu16 && path[k] != 0x2Fu16,
        last_separator(path) >= 0 ==> {
            &&& 0 <= last_separator(path) < path.len()
            &&& path[last_separator(path)] == 0x5Cu16 || path[last_separator(path)] == 0x2Fu16
            &&& forall|k: int| last_separator(path) < k < path.len() ==> #[trigger] path[k] != 0x5Cu16 && path[k] != 0x2Fu16
        },
    decreases path.len(),
{
    if path.len() > 0 {
        let q = path.drop_last();
        lemma_last_separator_is_slash(q);
        lemma_last_separator_bounds(q);
        lemma_last_separator_bounds(path);
        let n = path.len() - 1;
        assert(path[n] == path.last());
        if path.last() == 0x5Cu16 || path.last() == 0x2Fu16 {
            assert(last_separator(path) == n);
        } else {
            assert(last_separator(path) == last_separator(q));
            assert forall|k: int| last_separator(path) < k < path.len()
                implies #[trigger] path[k] != 0x5Cu16 && path[k] != 0x2Fu16 by {
                if k < n {
                    assert(q[k] == path[k]);
                }
            }
            if last_separator(q) == -1 {
                assert forall|k: int| 0 <= k < path.len()
                    implies #[trigger] path[k] != 0x5Cu16 && path[k] != 0x2Fu16 by {
                    if k < n {
                        assert(q[k] == path[k]);
                    }
                }
            } else {
                let w = last_separator(q);
                assert(q[w] == path[w]);
            }
        }
    }
}

/// A path that ends in a separator followed by text without separators has
/// its last separator right there.
proof fn lemma_last_separator_after(dir: Seq<u16>, rest: Seq<u16>)
    requires
        dir.len() >= 1,
        is_separator(dir.last()),
        forall|k: int| 0 <= k < rest.len() ==> !is_separator(#[trigger] rest[k]),
    ensures
        last_separator(dir + rest) == dir.len() - 1,
    decreases rest.len(),
{
    if rest.len() == 0 {
        assert(dir + rest =~= dir);
    } else {
        assert((dir + rest).drop_last() =~= dir + rest.drop_last());
        assert((dir + rest).last() == rest.last());
        lemma_last_separator_after(dir, rest.drop_last());
    }
}

/// The path of `vp.exe` is `VP_HOME` unchanged, whatever code units it holds,
/// followed by the code units of `\current\bin\vp.exe` and a NUL.
pub proof fn lemma_vp_exe_path(vp_home: Seq<u16>)
    ensures
        vp_exe_of(vp_home) == vp_home + seq![
            0x5Cu16, 0x63u16, 0x75u16, 0x72u16, 0x72u16, 0x65u16, 0x6Eu16, 0x74u16, 0x5Cu16,
            0x62u16, 0x69u16, 0x6Eu16, 0x5Cu16, 0x76u16, 0x70u16, 0x2Eu16, 0x65u16, 0x78u16, 0x65u16,
            0x00u16,
        ],
{
    reveal_strlit("\\current\\bin\\vp.exe");
    let chars = VP_EXE_SUFFIX@;
    assert(chars.len() == 19);
    assert(vstd::utf8::is_ascii_chars(chars));
    vstd::utf8::is_ascii_chars_encode_utf8(chars);
    assert(widen(VP_EXE_SUFFIX.spec_bytes()) =~= seq![
        0x5Cu16, 0x63u16, 0x75u16, 0x72u16, 0x72u16, 0x65u16, 0x6Eu16, 0x74u16, 0x5Cu16,
        0x62u16, 0x69u16, 0x6Eu16, 0x5Cu16, 0x76u16, 0x70u16, 0x2Eu16, 0x65u16, 0x78u16, 0x65u16,
    ]);
}

} // verus!
