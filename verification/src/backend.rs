//! Backend CLI adapters for dispatch: which coding-agent CLI a task runs
//! under, the argv it is started with, and the capped capture of its output.

use vstd::prelude::*;

use crate::text::{views, str_eq, to_ascii_lowercase, to_ascii_lowercase_string, trim, trim_str};

verus! {

/// stdout cap for a dispatched run.
pub const MAX_STDOUT: usize = 204800;

/// stderr cap for a dispatched run.
pub const MAX_STDERR: usize = 16384;

/// Which coding-agent CLI a task is delegated to.
#[derive(Debug, Clone, Copy, PartialEq, Eq, Structural)]
pub enum Backend {
    Codex,
}

/// The backend selected by a `backend` parameter: surrounding whitespace and
/// ASCII case are ignored, and the empty string selects the default, Codex.
pub open spec fn parse_backend(s: Seq<char>) -> Option<Backend> {
    let t = to_ascii_lowercase(trim(s));
    if t == ""@ || t == "codex"@ {
        Some(Backend::Codex)
    } else {
        None
    }
}

impl Backend {
    /// The executable name.
    pub fn binary(&self) -> (r: &'static str)
        ensures
            r@ == "codex"@,
    {
        match self {
            Backend::Codex => "codex",
        }
    }

    /// Stable string used in params, the task store and tool output.
    pub fn as_str(&self) -> (r: &'static str)
        ensures
            r@ == "codex"@,
    {
        self.binary()
    }

    /// Parses the `backend` parameter.
    pub fn parse(s: &str) -> (r: Option<Backend>)
        ensures
            r == parse_backend(s@),
    {
        let t = to_ascii_lowercase_string(trim_str(s));
        if str_eq(t.as_str(), "") || str_eq(t.as_str(), "codex") {
            Some(Backend::Codex)
        } else {
            None
        }
    }

    /// Every backend.
    pub fn all() -> (r: &'static [Backend])
        ensures
            r@ == seq![Backend::Codex],
    {
        &[Backend::Codex]
    }
}


/// Everything a backend command needs except the prompt, which goes to the
/// child's stdin rather than its argv.
pub struct SpawnSpec<'a> {
    /// The working directory, as text.
    pub working_dir: &'a str,
    pub sandbox: &'a str,
    pub model: Option<&'a str>,
    pub reasoning_effort: Option<&'a str>,
    pub skip_git_repo_check: bool,
    /// When set, continue this existing codex session instead of starting a fresh one.
    pub resume_session: Option<&'a str>,
}

/// The argv of a codex run:
/// `codex -C <dir> -s <sandbox> -a never [-m MODEL] [-c model_reasoning_effort=EFF]
/// exec [resume <sid>] [--skip-git-repo-check]`.
pub open spec fn codex_argv(spec: SpawnSpec) -> Seq<Seq<char>> {
    seq!["codex"@, "-C"@, spec.working_dir@, "-s"@, spec.sandbox@, "-a"@, "never"@] + (match spec.model {
        Some(m) => seq!["-m"@, m@],
        None => Seq::empty(),
    }) + (match spec.reasoning_effort {
        Some(e) => seq!["-c"@, "model_reasoning_effort="@ + e@],
        None => Seq::empty(),
    }) + seq!["exec"@] + (match spec.resume_session {
        Some(sid) => seq!["resume"@, sid@],
        None => Seq::empty(),
    }) + (if spec.skip_git_repo_check {
        seq!["--skip-git-repo-check"@]
    } else {
        Seq::empty()
    })
}

/// The argv (binary first) that starts `backend` for `spec`; the process is
/// started in `spec.working_dir`.
pub fn build_command(backend: Backend, spec: &SpawnSpec) -> (r: Vec<String>)
    ensures
        views(r@) == codex_argv(*spec),
{
    match backend {
        Backend::Codex => {
            let mut args: Vec<String> = Vec::new();
            args.push(String::from_str(backend.binary()));
            args.push(String::from_str("-C"));
            args.push(String::from_str(spec.working_dir));
            args.push(String::from_str("-s"));
            args.push(String::from_str(spec.sandbox));
            args.push(String::from_str("-a"));
            args.push(String::from_str("never"));
            let ghost base = views(args@);
            if let Some(m) = spec.model {
                args.push(String::from_str("-m"));
                args.push(String::from_str(m));
            }
            let ghost with_model = views(args@);
            if let Some(eff) = spec.reasoning_effort {
                args.push(String::from_str("-c"));
                let mut kv = String::from_str("model_reasoning_effort=");
                kv.append(eff);
                args.push(kv);
            }
            let ghost with_effort = views(args@);
            args.push(String::from_str("exec"));
            let ghost with_exec = views(args@);
            if let Some(sid) = spec.resume_session {
                args.push(String::from_str("resume"));
                args.push(String::from_str(sid));
            }
            let ghost with_resume = views(args@);
            if spec.skip_git_repo_check {
                args.push(String::from_str("--skip-git-repo-check"));
            }
            proof {
                assert(base =~= seq!["codex"@, "-C"@, spec.working_dir@, "-s"@, spec.sandbox@, "-a"@, "never"@]);
                assert(with_model =~= base + match spec.model {
                    Some(m) => seq!["-m"@, m@],
                    None => Seq::<Seq<char>>::empty(),
                });
                assert(with_effort =~= with_model + match spec.reasoning_effort {
                    Some(e) => seq!["-c"@, "model_reasoning_effort="@ + e@],
                    None => Seq::<Seq<char>>::empty(),
                });
                assert(with_exec =~= with_effort + seq!["exec"@]);
                assert(with_resume =~= with_exec + match spec.resume_session {
                    Some(sid) => seq!["resume"@, sid@],
                    None => Seq::<Seq<char>>::empty(),
                });
                assert(views(args@) =~= codex_argv(*spec));
            }
            args
        },
    }
}

pub open spec fn install_hint_text(backend: Backend) -> Seq<char> {
    "install codex CLI (`npm i -g @openai/codex`; see https://github.com/openai/codex)"@
}

/// How to install a backend that is missing from PATH.
pub fn install_hint(backend: Backend) -> (r: String)
    ensures
        r@ == install_hint_text(backend),
{
    match backend {
        Backend::Codex => String::from_str(
            "install codex CLI (`npm i -g @openai/codex`; see https://github.com/openai/codex)",
        ),
    }
}

/// The refusal to start a backend whose binary is not on PATH.
pub fn missing_backend_message(backend: Backend) -> (r: String)
    ensures
        r@ == "backend `"@ + "codex"@ + "` not found on PATH — "@ + install_hint_text(backend),
{
    let mut m = String::from_str("backend `");
    m.append(backend.binary());
    m.append("` not found on PATH — ");
    m.append(install_hint(backend).as_str());
    m
}

/// Outcome of awaiting a spawned child to completion (or cancellation).
pub enum RunOutcome {
    Done {
        exit_code: Option<i32>,
        success: bool,
        stdout: String,
        stdout_total: usize,
        stdout_truncated: bool,
        stderr: String,
        stderr_truncated: bool,
    },
    /// The child was killed because cancellation fired.
    Cancelled,
    /// Awaiting the child's exit status failed.
    WaitFailed(String),
}

/// The reported version: the trimmed stdout of `--version`, or else its
/// trimmed stderr; nothing when both are blank.
pub open spec fn version_text(stdout: Seq<char>, stderr: Seq<char>) -> Option<Seq<char>> {
    if trim(stdout).len() > 0 {
        Some(trim(stdout))
    } else if trim(stderr).len() > 0 {
        Some(trim(stderr))
    } else {
        None
    }
}

/// Picks a backend's version string out of the output of `<binary> --version`.
pub fn version_from_output(stdout: &str, stderr: &str) -> (r: Option<String>)
    ensures
        match r {
            Some(v) => version_text(stdout@, stderr@) == Some(v@),
            None => version_text(stdout@, stderr@) is None,
        },
{
    let out = trim_str(stdout);
    if !out.is_empty() {
        return Some(String::from_str(out));
    }
    let err = trim_str(stderr);
    if err.is_empty() {
        None
    } else {
        Some(String::from_str(err))
    }
}


// ── capped capture ────────────────────────────────────────

/// Captured output of a stream: its text (up to the cap), how many bytes the
/// stream produced, and whether bytes were dropped.
pub struct Capped {
    pub text: String,
    pub total: usize,
    pub truncated: bool,
}

impl Capped {
    pub fn empty() -> (r: Capped)
        ensures
            r.text@ == Seq::<char>::empty(),
            r.total == 0,
            !r.truncated,
    {
        Capped { text: String::new(), total: 0, truncated: false }
    }
}

/// What `String::from_utf8_lossy` makes of `bytes`.
pub uninterp spec fn utf8_lossy(bytes: Seq<u8>) -> Seq<char>;

/// `String::from_utf8_lossy(bytes).into_owned()`: decodes the bytes as UTF-8,
/// replacing each invalid sequence with U+FFFD; the result depends on the bytes
/// alone, and valid UTF-8 decodes to exactly its characters.
#[verifier::external_body]
fn lossy_string(bytes: &[u8]) -> (s: String)
    ensures
        s@ == utf8_lossy(bytes@),
        vstd::utf8::valid_utf8(bytes@) ==> s@ == vstd::utf8::decode_utf8(bytes@),
{
    String::from_utf8_lossy(bytes).into_owned()
}

/// A stream read into a `cap`-bounded buffer: bytes past the cap are counted
/// but dropped, so a writer is never blocked on a full pipe.
pub struct CappedReader {
    pub buf: Vec<u8>,
    pub total: usize,
    pub cap: usize,
}

impl CappedReader {
    pub fn new(cap: usize) -> (r: CappedReader)
        ensures
            r.buf@ == Seq::<u8>::empty(),
            r.total == 0,
            r.cap == cap,
    {
        CappedReader { buf: Vec::new(), total: 0, cap }
    }

    /// Takes in the next chunk the stream produced.
    pub fn absorb(&mut self, chunk: &[u8])
        requires
            old(self).total + chunk@.len() <= usize::MAX,
        ensures
            final(self).cap == old(self).cap,
            final(self).total == old(self).total + chunk@.len(),
            final(self).buf@ == if old(self).buf@.len() < old(self).cap {
                old(self).buf@ + chunk@.take(
                    if old(self).cap - old(self).buf@.len() < chunk@.len() {
                        old(self).cap - old(self).buf@.len()
                    } else {
                        chunk@.len() as int
                    },
                )
            } else {
                old(self).buf@
            },
    {
        let n = chunk.len();
        self.total = self.total + n;
        if self.buf.len() < self.cap {
            let room = self.cap - self.buf.len();
            let take = if room < n { room } else { n };
            let mut i: usize = 0;
            let ghost start = self.buf@;
            while i < take
                invariant
                    i <= take <= chunk@.len(),
                    self.buf@ == start + chunk@.take(i as int),
                    self.cap == old(self).cap,
                    self.total == old(self).total + chunk@.len(),
                decreases take - i,
            {
                self.buf.push(chunk[i]);
                assert(start + chunk@.take(i + 1) =~= (start + chunk@.take(i as int)).push(chunk@[i as int]));
                i += 1;
            }
        }
    }

    /// The capture: the kept bytes decoded leniently, the byte count, and
    /// whether more bytes arrived than were kept.
    pub fn finish(self) -> (r: Capped)
        ensures
            r.text@ == utf8_lossy(self.buf@),
            r.total == self.total,
            r.truncated == (self.total > self.buf@.len()),
    {
        let truncated = self.total > self.buf.len();
        Capped { text: lossy_string(self.buf.as_slice()), total: self.total, truncated }
    }
}

/// The bytes kept by a reader of capacity `cap` that has absorbed the stream
/// `seen`: its first `cap` bytes.
pub open spec fn capped_prefix(seen: Seq<u8>, cap: nat) -> Seq<u8> {
    if seen.len() <= cap {
        seen
    } else {
        seen.take(cap as int)
    }
}

/// Reading in chunks keeps exactly the first `cap` bytes of the whole stream
/// and counts every byte, however the stream is split into chunks.
pub proof fn law_capped_reader_keeps_prefix(seen: Seq<u8>, chunk: Seq<u8>, cap: nat, buf: Seq<u8>)
    requires
        buf == capped_prefix(seen, cap),
    ensures
        (if buf.len() < cap {
            buf + chunk.take(
                if cap - buf.len() < chunk.len() {
                    cap - buf.len()
                } else {
                    chunk.len() as int
                },
            )
        } else {
            buf
        }) == capped_prefix(seen + chunk, cap),
{
    let s2 = seen + chunk;
    if buf.len() < cap {
        assert(buf == seen);
        if cap - buf.len() < chunk.len() {
            assert(seen + chunk.take(cap - buf.len()) =~= s2.take(cap as int));
        } else {
            assert(chunk.take(chunk.len() as int) =~= chunk);
        }
    } else {
        if seen.len() <= cap {
            assert(seen.len() == cap);
            if chunk.len() > 0 {
                assert(s2.take(cap as int) =~= seen);
            } else {
                assert(s2 =~= seen);
            }
        } else {
            assert(s2.take(cap as int) =~= seen.take(cap as int));
        }
    }
}

} // verus!
