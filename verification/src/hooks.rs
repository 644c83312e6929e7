//! Hook subcommands for the messaging doorbell, the SendMessage bridge and
//! the session-start bridges: which hook a process runs, what each hook
//! injects into the agent's context, which settings.json entries are ours,
//! and the entries an install writes.

use vstd::prelude::*;

use crate::text::{
    chars_of, contains, contains_str, dec, squash_ws, squash_ws_chars,
    string_from_chars, str_eq, trim, trim_str, append_dec,
};

verus! {

#[derive(Clone, Copy, PartialEq, Eq, Structural)]
pub enum HookMode {
    Inbox,
    SendBridge,
    SessionStart,
    SubagentStart,
    /// `--hook=task` from a settings.json written before the task footer was
    /// retired; recognized so the invocation exits quietly.
    LegacyTask,
}

/// The hook a single argument selects.
pub open spec fn hook_flag(a: Seq<char>) -> Option<HookMode> {
    if a == "--hook=inbox"@ {
        Some(HookMode::Inbox)
    } else if a == "--hook=send-bridge"@ {
        Some(HookMode::SendBridge)
    } else if a == "--hook=session-start"@ {
        Some(HookMode::SessionStart)
    } else if a == "--hook=subagent-start"@ {
        Some(HookMode::SubagentStart)
    } else if a == "--hook=task"@ {
        Some(HookMode::LegacyTask)
    } else {
        None
    }
}

/// The hook selected by the first argument that names one.
pub open spec fn first_hook_flag(args: Seq<Seq<char>>) -> Option<HookMode>
    decreases args.len(),
{
    if args.len() == 0 {
        None
    } else {
        match hook_flag(args[0]) {
            Some(m) => Some(m),
            None => first_hook_flag(args.drop_first()),
        }
    }
}

fn hook_flag_exec(a: &str) -> (r: Option<HookMode>)
    ensures
        r == hook_flag(a@),
{
    if str_eq(a, "--hook=inbox") {
        Some(HookMode::Inbox)
    } else if str_eq(a, "--hook=send-bridge") {
        Some(HookMode::SendBridge)
    } else if str_eq(a, "--hook=session-start") {
        Some(HookMode::SessionStart)
    } else if str_eq(a, "--hook=subagent-start") {
        Some(HookMode::SubagentStart)
    } else if str_eq(a, "--hook=task") {
        Some(HookMode::LegacyTask)
    } else {
        None
    }
}

/// Detects the `--hook=…` flag in argv.
pub fn parse_hook_mode(args: &[String]) -> (r: Option<HookMode>)
    ensures
        r == first_hook_flag(crate::text::views(args@)),
{
    let ghost a = crate::text::views(args@);
    let mut i: usize = 0;
    assert(a.skip(0) =~= a);
    while i < args.len()
        invariant
            i <= args@.len(),
            a == crate::text::views(args@),
            first_hook_flag(a) == first_hook_flag(a.skip(i as int)),
        decreases args@.len() - i,
    {
        let ghost rest = a.skip(i as int);
        assert(rest[0] == args@[i as int]@);
        assert(rest.drop_first() =~= a.skip(i + 1));
        match hook_flag_exec(args[i].as_str()) {
            Some(m) => return Some(m),
            None => {},
        }
        i += 1;
    }
    assert(a.skip(i as int).len() == 0);
    None
}

/// The hook event a mode's output is addressed to.
pub open spec fn event_name_of(mode: HookMode) -> Seq<char> {
    match mode {
        HookMode::SessionStart => "SessionStart"@,
        HookMode::SubagentStart => "SubagentStart"@,
        HookMode::Inbox => "PreToolUse"@,
        HookMode::SendBridge | HookMode::LegacyTask => "PostToolUse"@,
    }
}

/// The hook event a mode's output is addressed to: the inbox nudge fires
/// before every tool call, the bridge after a successful native send.
pub fn event_name(mode: HookMode) -> (r: &'static str)
    ensures
        r@ == event_name_of(mode),
{
    match mode {
        HookMode::SessionStart => "SessionStart",
        HookMode::SubagentStart => "SubagentStart",
        HookMode::Inbox => "PreToolUse",
        HookMode::SendBridge | HookMode::LegacyTask => "PostToolUse",
    }
}

// ── hook context text ─────────────────────────────────────

pub open spec fn session_start_text(session_id: Seq<char>) -> Seq<char> {
    "[workslate] session_id=`"@ + session_id
        + "` — to enable the mid-turn message doorbell, pass session_id=\""@ + session_id
        + "\" (and agent_id=\"\") to workslate_register."@
}

/// The SessionStart hint: the conversation's session id, to pass to
/// workslate_register.
pub fn session_start_context(session_id: &str) -> (r: String)
    ensures
        r@ == session_start_text(session_id@),
{
    let mut r = String::from_str("[workslate] session_id=`");
    r.append(session_id);
    r.append("` — to enable the mid-turn message doorbell, pass session_id=\"");
    r.append(session_id);
    r.append("\" (and agent_id=\"\") to workslate_register.");
    r
}

pub open spec fn subagent_start_text(agent_id: Seq<char>, session_id: Seq<char>, auto_role: Option<Seq<char>>) -> Seq<char> {
    match auto_role {
        Some(name) => "[workslate] agent_id=`"@ + agent_id + "` session_id=`"@ + session_id
            + "` — you are a subagent, auto-registered for team messaging as role \""@ + name
            + "\". Unread messages will be announced by the inbox doorbell; drain them with workslate_inbox_read(role=\""@
            + name + "\", session_id=\""@ + session_id
            + "\"). To use a different role, call workslate_register with BOTH ids."@,
        None => "[workslate] agent_id=`"@ + agent_id + "` session_id=`"@ + session_id
            + "` — you are a subagent; to enable the mid-turn message doorbell, pass BOTH agent_id=\""@
            + agent_id + "\" and session_id=\""@ + session_id + "\" to workslate_register."@,
    }
}

/// The SubagentStart hint: the subagent's ids, and the role it was
/// auto-registered under when that succeeded.
pub fn subagent_start_context(agent_id: &str, session_id: &str, auto_role: Option<&str>) -> (r: String)
    ensures
        r@ == subagent_start_text(agent_id@, session_id@, match auto_role {
            Some(n) => Some(n@),
            None => None,
        }),
{
    let mut r = String::from_str("[workslate] agent_id=`");
    r.append(agent_id);
    r.append("` session_id=`");
    r.append(session_id);
    match auto_role {
        Some(name) => {
            r.append("` — you are a subagent, auto-registered for team messaging as role \"");
            r.append(name);
            r.append("\". Unread messages will be announced by the inbox doorbell; drain them with workslate_inbox_read(role=\"");
            r.append(name);
            r.append("\", session_id=\"");
            r.append(session_id);
            r.append("\"). To use a different role, call workslate_register with BOTH ids.");
        },
        None => {
            r.append("` — you are a subagent; to enable the mid-turn message doorbell, pass BOTH agent_id=\"");
            r.append(agent_id);
            r.append("\" and session_id=\"");
            r.append(session_id);
            r.append("\" to workslate_register.");
        },
    }
    r
}

/// The name a subagent is auto-registered under: the first of its
/// `agent_name` and `name` fields that is not blank, trimmed.
pub open spec fn subagent_name_of(agent_name: Option<Seq<char>>, name: Option<Seq<char>>) -> Option<Seq<char>> {
    match agent_name {
        Some(a) if trim(a).len() > 0 => Some(trim(a)),
        _ => match name {
            Some(n) if trim(n).len() > 0 => Some(trim(n)),
            _ => None,
        },
    }
}

pub open spec fn opt_view(o: Option<&str>) -> Option<Seq<char>> {
    match o {
        Some(s) => Some(s@),
        None => None,
    }
}

/// The spawned agent's name from the string values of a SubagentStart
/// payload's `agent_name` and `name` fields (`agent_type` is a capability
/// class, not an identity, and is never used).
pub fn subagent_name(agent_name: Option<&str>, name: Option<&str>) -> (r: Option<String>)
    ensures
        match r {
            Some(s) => subagent_name_of(opt_view(agent_name), opt_view(name)) == Some(s@),
            None => subagent_name_of(opt_view(agent_name), opt_view(name)) is None,
        },
{
    if let Some(a) = agent_name {
        let t = trim_str(a);
        if !t.is_empty() {
            return Some(String::from_str(t));
        }
    }
    if let Some(n) = name {
        let t = trim_str(n);
        if !t.is_empty() {
            return Some(String::from_str(t));
        }
    }
    None
}

/// `s` with whitespace runs collapsed to single spaces and the ends trimmed,
/// cut to `cap` characters plus an ellipsis when longer.
pub open spec fn truncated_text(s: Seq<char>, cap: nat) -> Seq<char> {
    let one = squash_ws(s);
    if one.len() > cap {
        one.take(cap as int) + "…"@
    } else {
        one
    }
}

pub fn truncate_chars(s: &str, cap: usize) -> (r: String)
    ensures
        r@ == truncated_text(s@, cap as nat),
{
    let v = chars_of(s);
    let one = squash_ws_chars(&v);
    if one.len() > cap {
        let mut cut: Vec<char> = Vec::new();
        let mut i: usize = 0;
        while i < cap
            invariant
                i <= cap < one@.len(),
                cut@ == one@.take(i as int),
            decreases cap - i,
        {
            cut.push(one[i]);
            assert(cut@ =~= one@.take(i + 1));
            i += 1;
        }
        let mut r = string_from_chars(&cut);
        r.append("…");
        r
    } else {
        string_from_chars(&one)
    }
}

/// The inbox doorbell line for `role`, given its unread messages, newest
/// first, as (subject, urgent) pairs.
pub open spec fn doorbell_text(role: Seq<char>, rows: Seq<(String, i64)>) -> Seq<char> {
    let any_urgent = exists|k: int| 0 <= k < rows.len() && rows[k].1 != 0;
    "📨 "@ + (if any_urgent { "🚨 URGENT — "@ } else { Seq::empty() }) + dec(rows.len()) + " unread message(s) for role \""@
        + role + "\". Latest: \""@ + rows[0].0@ + "\". Read now with workslate_inbox_read(role=\""@ + role + "\")."@
}

/// The inbox doorbell: nothing without a role or without unread messages,
/// else one line nudging the agent to read them.
pub fn inbox_doorbell(role: Option<&str>, rows: &[(String, i64)]) -> (r: Option<String>)
    ensures
        match r {
            Some(t) => role is Some && rows@.len() > 0 && t@ == doorbell_text(role->0@, rows@),
            None => role is None || rows@.len() == 0,
        },
{
    let role = match role {
        Some(x) => x,
        None => return None,
    };
    if rows.len() == 0 {
        return None;
    }
    let mut any_urgent = false;
    let mut i: usize = 0;
    while i < rows.len()
        invariant
            i <= rows@.len(),
            any_urgent == exists|k: int| 0 <= k < i && rows@[k].1 != 0,
        decreases rows@.len() - i,
    {
        if rows[i].1 != 0 {
            any_urgent = true;
        }
        i += 1;
    }
    let mut t = String::from_str("📨 ");
    if any_urgent {
        t.append("🚨 URGENT — ");
    }
    append_dec(&mut t, rows.len() as u64);
    t.append(" unread message(s) for role \"");
    t.append(role);
    t.append("\". Latest: \"");
    t.append(rows[0].0.as_str());
    t.append("\". Read now with workslate_inbox_read(role=\"");
    t.append(role);
    t.append("\").");
    Some(t)
}

/// The inbox hook's answer from the store: `row` is the session's registered
/// role, if the session has a row (`Some(None)`: a row without a role);
/// `rows` that role's unread messages, newest first, if they could be read.
/// A session without a row, without a role, or whose messages cannot be read
/// gets nothing; else the doorbell.
pub fn inbox_hook_reply(row: Option<Option<&str>>, rows: Option<&[(String, i64)]>) -> (r: Option<String>)
    ensures
        match r {
            Some(t) => row matches Some(Some(role)) && rows matches Some(rs) && rs@.len() > 0 && t@
                == doorbell_text(role@, rs@),
            None => !(row matches Some(Some(_))) || rows is None || rows->0@.len() == 0,
        },
{
    match row {
        Some(Some(role)) => match rows {
            Some(rs) => inbox_doorbell(Some(role), rs),
            None => None,
        },
        _ => None,
    }
}


// ── settings.json hook entries ───────────────────────────

/// Marker at the start of the Stop verify hook's prompt, by which that entry
/// (which has no command) is recognized as ours.
pub const STOP_VERIFY_MARKER: &'static str = "[workslate-task-verify]";

/// The Stop verify hook's prompt after its marker: a verifier subagent checks
/// the turn's completion claims against real repository state before the turn
/// may end.
pub const STOP_VERIFY_BODY: &'static str = " You are an independent verification subagent spawned by a
Stop hook. Decide whether the assistant may end its turn, by checking REAL
repository/system state — never by trusting the conversation's own claims of
success.

Hook input JSON (session_id, cwd, transcript_path, stop_hook_active):
$ARGUMENTS

Rules:
1. If `stop_hook_active` is true in the input above, respond {\"ok\": true}
   immediately — a prior Stop hook already blocked this turn once; do not loop.
2. Read the tail of the transcript at `transcript_path` to find what the assistant
   claimed to have completed THIS turn (tasks finished, tests passing, builds green,
   files changed). If the turn made no completion claims — conversational,
   investigative, or explicitly-unfinished work — respond {\"ok\": true}.
3. Verify the load-bearing claims against real state: read the files named, run the
   tests/commands cited, check actual output. Spot-check; do not re-derive
   everything.
4. If the claims hold, respond {\"ok\": true}. If a claim is false or unverifiable —
   e.g. work reported complete while its build or test still fails — respond
   {\"ok\": false, \"reason\": \"<specifically what is wrong or unproven>\"}.

Your final message must be ONLY {\"ok\": true} or {\"ok\": false, \"reason\": \"...\"}
— no other fields, no surrounding prose.";

/// The Stop verify hook's prompt: the marker, then the instructions.
pub open spec fn stop_verify_prompt_text() -> Seq<char> {
    STOP_VERIFY_MARKER@ + STOP_VERIFY_BODY@
}

pub fn stop_verify_prompt() -> (r: String)
    ensures
        r@ == stop_verify_prompt_text(),
{
    let mut r = String::from_str(STOP_VERIFY_MARKER);
    r.append(STOP_VERIFY_BODY);
    r
}

/// Whether a hook handler with these `command` and `prompt` strings is one of
/// ours: a command naming workslate with a `--hook=` flag (matched by content,
/// so a moved binary is still recognized), or a prompt carrying the marker.
pub open spec fn hook_is_ours_spec(command: Option<Seq<char>>, prompt: Option<Seq<char>>) -> bool {
    ||| (command matches Some(c) && contains(c, "workslate"@) && contains(c, "--hook="@))
    ||| (prompt matches Some(p) && contains(p, STOP_VERIFY_MARKER@))
}

pub fn hook_is_ours(command: Option<&str>, prompt: Option<&str>) -> (r: bool)
    ensures
        r == hook_is_ours_spec(opt_view(command), opt_view(prompt)),
{
    let command_ours = match command {
        Some(c) => contains_str(c, "workslate") && contains_str(c, "--hook="),
        None => false,
    };
    let prompt_ours = match prompt {
        Some(p) => contains_str(p, STOP_VERIFY_MARKER),
        None => false,
    };
    command_ours || prompt_ours
}

/// One hook handler of a settings.json matcher-group: the string values of its
/// `command` and `prompt` fields, and the entry itself.
pub struct HookHandler<T> {
    pub command: Option<String>,
    pub prompt: Option<String>,
    pub raw: T,
}

/// A matcher-group: its `hooks` array when it has one, and the group itself.
pub struct HookGroup<G, T> {
    pub handlers: Option<Vec<HookHandler<T>>>,
    pub raw: G,
}

pub open spec fn string_opt_view(o: Option<String>) -> Option<Seq<char>> {
    match o {
        Some(s) => Some(s@),
        None => None,
    }
}

pub open spec fn handler_is_ours<T>(h: HookHandler<T>) -> bool {
    hook_is_ours_spec(string_opt_view(h.command), string_opt_view(h.prompt))
}

/// The handlers that are not ours, in order.
pub open spec fn keep_handlers<T>(hs: Seq<HookHandler<T>>) -> Seq<HookHandler<T>> {
    hs.filter(|h: HookHandler<T>| !handler_is_ours(h))
}

/// A matcher-group as a value: its handlers (if it has a `hooks` array) and itself.
pub type GroupModel<G, T> = (Option<Seq<HookHandler<T>>>, G);

pub open spec fn group_model<G, T>(g: HookGroup<G, T>) -> GroupModel<G, T> {
    (
        match g.handlers {
            Some(v) => Some(v@),
            None => None,
        },
        g.raw,
    )
}

pub open spec fn group_models<G, T>(gs: Seq<HookGroup<G, T>>) -> Seq<GroupModel<G, T>> {
    gs.map_values(|g: HookGroup<G, T>| group_model(g))
}

/// The groups with our handlers removed; a group is dropped once it has no
/// handlers left, and a group without a `hooks` array is kept as it is.
pub open spec fn strip_model<G, T>(gs: Seq<GroupModel<G, T>>) -> Seq<GroupModel<G, T>>
    decreases gs.len(),
{
    if gs.len() == 0 {
        Seq::empty()
    } else {
        let rest = strip_model(gs.drop_last());
        let g = gs.last();
        match g.0 {
            None => rest.push(g),
            Some(hs) => {
                let k = keep_handlers(hs);
                if k.len() == 0 {
                    rest
                } else {
                    rest.push((Some(k), g.1))
                }
            },
        }
    }
}

/// The handlers of `hs` that are not ours.
fn keep_user_handlers<T>(hs: Vec<HookHandler<T>>) -> (r: Vec<HookHandler<T>>)
    ensures
        r@ == keep_handlers(hs@),
{
    let ghost orig = hs@;
    let total = hs.len();
    let mut rest = hs;
    let mut kept: Vec<HookHandler<T>> = Vec::new();
    let mut i: usize = 0;
    reveal_with_fuel(Seq::filter, 1);
    while rest.len() > 0
        invariant
            i + rest@.len() == orig.len(),
            orig.len() == total,
            rest@ == orig.skip(i as int),
            kept@ == keep_handlers(orig.take(i as int)),
        decreases rest@.len(),
    {
        let h = rest.remove(0);
        proof {
            assert(h == orig[i as int]);
            assert(orig.take(i + 1) =~= orig.take(i as int).push(h));
            orig.take(i as int).lemma_filter_push(h, |h: HookHandler<T>| !handler_is_ours(h));
            assert(rest@ =~= orig.skip(i + 1));
        }
        let ours = hook_is_ours(
            match &h.command {
                Some(c) => Some(c.as_str()),
                None => None,
            },
            match &h.prompt {
                Some(p) => Some(p.as_str()),
                None => None,
            },
        );
        if !ours {
            kept.push(h);
        }
        i += 1;
    }
    assert(orig.take(i as int) =~= orig);
    kept
}

/// Removes our handlers from each matcher-group, dropping a group once it has
/// no handlers left, so unrelated user hooks sharing a group are preserved.
pub fn strip_our_hooks<G, T>(groups: &mut Vec<HookGroup<G, T>>)
    ensures
        group_models(final(groups)@) == strip_model(group_models(old(groups)@)),
{
    let ghost orig = old(groups)@;
    let total = groups.len();
    let mut rest: Vec<HookGroup<G, T>> = Vec::new();
    std::mem::swap(groups, &mut rest);
    let mut i: usize = 0;
    assert(orig.take(0) =~= Seq::<HookGroup<G, T>>::empty());
    assert(group_models(groups@) =~= strip_model(group_models(orig.take(0))));
    while rest.len() > 0
        invariant
            i + rest@.len() == orig.len(),
            orig.len() == total,
            rest@ == orig.skip(i as int),
            group_models(groups@) == strip_model(group_models(orig.take(i as int))),
        decreases rest@.len(),
    {
        let g = rest.remove(0);
        let ghost gm = group_model(g);
        let ghost before = group_models(groups@);
        proof {
            assert(g == orig[i as int]);
            assert(group_models(orig.take(i + 1)) =~= group_models(orig.take(i as int)).push(gm));
            assert(group_models(orig.take(i + 1)).drop_last() =~= group_models(orig.take(i as int)));
            assert(rest@ =~= orig.skip(i + 1));
        }
        let HookGroup { handlers, raw } = g;
        match handlers {
            None => {
                groups.push(HookGroup { handlers: None, raw });
                assert(group_models(groups@) =~= before.push(gm));
            },
            Some(hs) => {
                let kept = keep_user_handlers(hs);
                if kept.len() > 0 {
                    let ghost km = kept@;
                    groups.push(HookGroup { handlers: Some(kept), raw });
                    assert(group_models(groups@) =~= before.push((Some(km), gm.1)));
                }
            },
        }
        i += 1;
    }
    assert(orig.take(i as int) =~= orig);
}


// ── laws of hook stripping ───────────────────────────────

proof fn lemma_filter_all<A>(s: Seq<A>, p: spec_fn(A) -> bool)
    requires
        forall|i: int| 0 <= i < s.len() ==> p(#[trigger] s[i]),
    ensures
        s.filter(p) == s,
    decreases s.len(),
{
    reveal_with_fuel(Seq::filter, 1);
    if s.len() > 0 {
        lemma_filter_all(s.drop_last(), p);
        assert(s.drop_last().push(s.last()) =~= s);
    }
}

proof fn lemma_filter_none<A>(s: Seq<A>, p: spec_fn(A) -> bool)
    requires
        forall|i: int| 0 <= i < s.len() ==> !p(#[trigger] s[i]),
    ensures
        s.filter(p).len() == 0,
    decreases s.len(),
{
    reveal_with_fuel(Seq::filter, 1);
    if s.len() > 0 {
        lemma_filter_none(s.drop_last(), p);
    }
}

proof fn lemma_keep_handlers_not_ours<T>(hs: Seq<HookHandler<T>>)
    ensures
        forall|j: int| 0 <= j < keep_handlers(hs).len() ==> !handler_is_ours(#[trigger] keep_handlers(hs)[j]),
{
    assert forall|j: int| 0 <= j < keep_handlers(hs).len() implies !handler_is_ours(
        #[trigger] keep_handlers(hs)[j],
    ) by {
        hs.lemma_filter_pred(|h: HookHandler<T>| !handler_is_ours(h), j);
    }
}

proof fn lemma_strip_model_clean<G, T>(gs: Seq<GroupModel<G, T>>)
    ensures
        forall|k: int| 0 <= k < strip_model(gs).len() ==> match #[trigger] strip_model(gs)[k].0 {
            Some(hs) => hs.len() > 0 && forall|j: int| 0 <= j < hs.len() ==> !handler_is_ours(#[trigger] hs[j]),
            None => true,
        },
    decreases gs.len(),
{
    if gs.len() > 0 {
        lemma_strip_model_clean(gs.drop_last());
        let g = gs.last();
        if let Some(hs) = g.0 {
            lemma_keep_handlers_not_ours(hs);
        }
        let rest = strip_model(gs.drop_last());
        assert forall|k: int| 0 <= k < strip_model(gs).len() implies match #[trigger] strip_model(gs)[k].0 {
            Some(hs) => hs.len() > 0 && forall|j: int| 0 <= j < hs.len() ==> !handler_is_ours(#[trigger] hs[j]),
            None => true,
        } by {
            if k < rest.len() {
                assert(strip_model(gs)[k] == rest[k]);
            }
        }
    }
}

/// After stripping, no remaining handler is ours and no group is left empty.
pub proof fn law_strip_leaves_no_hook_of_ours<G, T>(gs: Seq<GroupModel<G, T>>, k: int, j: int)
    requires
        0 <= k < strip_model(gs).len(),
        strip_model(gs)[k].0 is Some,
        0 <= j < strip_model(gs)[k].0->0.len(),
    ensures
        strip_model(gs)[k].0->0.len() > 0,
        !handler_is_ours(strip_model(gs)[k].0->0[j]),
{
    lemma_strip_model_clean(gs);
    assert(match strip_model(gs)[k].0 {
        Some(hs) => hs.len() > 0 && forall|j: int| 0 <= j < hs.len() ==> !handler_is_ours(#[trigger] hs[j]),
        None => true,
    });
}

/// Stripping twice is stripping once.
pub proof fn law_strip_idempotent<G, T>(gs: Seq<GroupModel<G, T>>)
    ensures
        strip_model(strip_model(gs)) == strip_model(gs),
    decreases gs.len(),
{
    if gs.len() > 0 {
        law_strip_idempotent(gs.drop_last());
        let rest = strip_model(gs.drop_last());
        let g = gs.last();
        match g.0 {
            None => {
                assert(rest.push(g).drop_last() =~= rest);
            },
            Some(hs) => {
                let k = keep_handlers(hs);
                if k.len() > 0 {
                    lemma_keep_handlers_not_ours(hs);
                    lemma_filter_all(k, |h: HookHandler<T>| !handler_is_ours(h));
                    assert(rest.push((Some(k), g.1)).drop_last() =~= rest);
                }
            },
        }
    }
}

/// A group whose handlers are all ours (the kind an install adds).
pub open spec fn all_ours<G, T>(g: GroupModel<G, T>) -> bool {
    &&& g.0 is Some
    &&& forall|j: int| 0 <= j < g.0->0.len() ==> handler_is_ours(#[trigger] g.0->0[j])
}

/// An install: our old handlers stripped, then our group appended.
pub open spec fn install_model<G, T>(gs: Seq<GroupModel<G, T>>, g: GroupModel<G, T>) -> Seq<GroupModel<G, T>> {
    strip_model(gs).push(g)
}

/// One install step on an event's groups: our earlier handlers are stripped,
/// then our group is appended.
pub fn install_group<G, T>(groups: &mut Vec<HookGroup<G, T>>, group: HookGroup<G, T>)
    ensures
        group_models(final(groups)@) == install_model(group_models(old(groups)@), group_model(group)),
{
    strip_our_hooks(groups);
    let ghost stripped = groups@;
    groups.push(group);
    assert(group_models(groups@) =~= group_models(stripped).push(group_model(group)));
}

proof fn lemma_strip_drops_ours<G, T>(gs: Seq<GroupModel<G, T>>, g: GroupModel<G, T>)
    requires
        all_ours(g),
    ensures
        strip_model(gs.push(g)) == strip_model(gs),
{
    assert(gs.push(g).drop_last() =~= gs);
    let hs = g.0->0;
    lemma_filter_none(hs, |h: HookHandler<T>| !handler_is_ours(h));
}

/// Installing again replaces our entries rather than duplicating them, and
/// uninstalling after an install leaves exactly the user's entries. An
/// install step is `install_group`, whose result is `install_model`; an
/// uninstall is `strip_our_hooks`, whose result is `strip_model`.
pub proof fn law_reinstall_replaces<G, T>(gs: Seq<GroupModel<G, T>>, g: GroupModel<G, T>)
    requires
        all_ours(g),
    ensures
        install_model(install_model(gs, g), g) == install_model(gs, g),
        strip_model(install_model(gs, g)) == strip_model(gs),
{
    lemma_strip_drops_ours(strip_model(gs), g);
    law_strip_idempotent(gs);
}


// ── install plan ─────────────────────────────────────────

/// Every hook event whose entries are ours.
pub open spec fn ws_hook_event_names() -> Seq<Seq<char>> {
    seq!["PreToolUse"@, "PostToolUse"@, "SessionStart"@, "SubagentStart"@, "Stop"@]
}

/// The hook events whose entries install writes and uninstall removes.
pub fn ws_hook_events() -> (r: Vec<&'static str>)
    ensures
        r@.map_values(|e: &'static str| e@) == ws_hook_event_names(),
{
    let r = vec!["PreToolUse", "PostToolUse", "SessionStart", "SubagentStart", "Stop"];
    assert(r@.map_values(|e: &'static str| e@) =~= ws_hook_event_names());
    r
}

/// One hook entry an install writes: the event, the matcher (when it has
/// one), and the handler: a command, or an agent prompt with a timeout.
pub struct InstallEntry {
    pub event: &'static str,
    pub matcher: Option<&'static str>,
    pub command: Option<String>,
    pub prompt: Option<String>,
    pub timeout: Option<u32>,
}

/// The command that runs this binary as the given hook.
pub open spec fn hook_command_text(bin: Seq<char>, flag: Seq<char>) -> Seq<char> {
    "\""@ + bin + "\" --hook="@ + flag
}

pub type EntryModel = (Seq<char>, Option<Seq<char>>, Option<Seq<char>>, Option<Seq<char>>, Option<u32>);

pub open spec fn entry_model(e: InstallEntry) -> EntryModel {
    (e.event@, opt_view(e.matcher), string_opt_view(e.command), string_opt_view(e.prompt), e.timeout)
}

/// The entries an install writes, in order: the inbox doorbell before every
/// tool call, the SendMessage bridge after SendMessage calls, the session-start
/// and subagent-start bridges, and the Stop verify agent.
pub open spec fn install_plan_model(bin: Seq<char>) -> Seq<EntryModel> {
    seq![
        ("PreToolUse"@, Some("*"@), Some(hook_command_text(bin, "inbox"@)), None, None),
        ("PostToolUse"@, Some("SendMessage"@), Some(hook_command_text(bin, "send-bridge"@)), None, None),
        ("SessionStart"@, None, Some(hook_command_text(bin, "session-start"@)), None, None),
        ("SubagentStart"@, Some("*"@), Some(hook_command_text(bin, "subagent-start"@)), None, None),
        ("Stop"@, None, None, Some(stop_verify_prompt_text()), Some(120u32)),
    ]
}

fn hook_command(bin: &str, flag: &str) -> (r: String)
    ensures
        r@ == hook_command_text(bin@, flag@),
{
    let mut r = String::from_str("\"");
    r.append(bin);
    r.append("\" --hook=");
    r.append(flag);
    r
}

/// The hook entries an install writes for the binary at `bin`.
pub fn install_plan(bin: &str) -> (r: Vec<InstallEntry>)
    ensures
        r@.map_values(|e: InstallEntry| entry_model(e)) == install_plan_model(bin@),
{
    let mut r: Vec<InstallEntry> = Vec::new();
    r.push(InstallEntry { event: "PreToolUse", matcher: Some("*"), command: Some(hook_command(bin, "inbox")), prompt: None, timeout: None });
    r.push(InstallEntry { event: "PostToolUse", matcher: Some("SendMessage"), command: Some(hook_command(bin, "send-bridge")), prompt: None, timeout: None });
    r.push(InstallEntry { event: "SessionStart", matcher: None, command: Some(hook_command(bin, "session-start")), prompt: None, timeout: None });
    r.push(InstallEntry { event: "SubagentStart", matcher: Some("*"), command: Some(hook_command(bin, "subagent-start")), prompt: None, timeout: None });
    r.push(InstallEntry { event: "Stop", matcher: None, command: None, prompt: Some(stop_verify_prompt()), timeout: Some(120) });
    assert(r@.map_values(|e: InstallEntry| entry_model(e)) =~= install_plan_model(bin@));
    r
}

proof fn lemma_contains_within(a: Seq<char>, b: Seq<char>, c: Seq<char>, p: Seq<char>)
    requires
        contains(b, p),
    ensures
        contains(a + b + c, p),
{
    let i = choose|i: int| crate::text::occurs_at(b, p, i);
    assert((a + b + c).subrange(a.len() + i, a.len() + i + p.len()) =~= b.subrange(i, i + p.len()));
    assert(crate::text::occurs_at(a + b + c, p, a.len() + i));
}

/// Every entry an install writes is recognized as ours, so a reinstall
/// replaces rather than duplicates it and an uninstall removes it — provided
/// the binary's path names workslate (a renamed binary's commands are not
/// recognized).
pub proof fn law_installed_entries_are_ours(bin: Seq<char>, k: int)
    requires
        contains(bin, "workslate"@),
        0 <= k < install_plan_model(bin).len(),
    ensures
        hook_is_ours_spec(install_plan_model(bin)[k].2, install_plan_model(bin)[k].3),
{
    reveal_strlit("--hook=");
    reveal_strlit("\"");
    reveal_strlit("\" --hook=");
    let e = install_plan_model(bin)[k];
    if k < 4 {
        let flag = if k == 0 {
            "inbox"@
        } else if k == 1 {
            "send-bridge"@
        } else if k == 2 {
            "session-start"@
        } else {
            "subagent-start"@
        };
        let cmd = hook_command_text(bin, flag);
        assert(e.2 == Some(cmd));
        lemma_contains_within("\""@, bin, "\" --hook="@ + flag, "workslate"@);
        assert("\""@ + bin + ("\" --hook="@ + flag) =~= cmd);
        let at: int = bin.len() as int + 3;
        assert(cmd.subrange(at, at + 7) =~= "--hook="@);
        assert(crate::text::occurs_at(cmd, "--hook="@, at));
    } else {
        let p = stop_verify_prompt_text();
        assert(p.subrange(0, STOP_VERIFY_MARKER@.len() as int) =~= STOP_VERIFY_MARKER@);
        assert(crate::text::occurs_at(p, STOP_VERIFY_MARKER@, 0));
    }
}

/// The events of an install's entries are pairwise distinct.
pub proof fn law_install_plan_events_distinct(bin: Seq<char>, a: int, b: int)
    requires
        0 <= a < b < install_plan_model(bin).len(),
    ensures
        install_plan_model(bin)[a].0 != install_plan_model(bin)[b].0,
{
    reveal_strlit("PreToolUse");
    reveal_strlit("PostToolUse");
    reveal_strlit("SessionStart");
    reveal_strlit("SubagentStart");
    reveal_strlit("Stop");
    assert(install_plan_model(bin)[a].0.len() != install_plan_model(bin)[b].0.len());
}

/// The (event, matcher-group) pair that an install entry becomes: the group
/// holds the entry's handler alone.
pub fn entry_group<G, T>(e: InstallEntry, group_raw: G, handler_raw: T) -> (r: (String, HookGroup<G, T>))
    ensures
        r.0@ == e.event@,
        r.1.raw == group_raw,
        r.1.handlers is Some,
        r.1.handlers->0@.len() == 1,
        string_opt_view(r.1.handlers->0@[0].command) == string_opt_view(e.command),
        string_opt_view(r.1.handlers->0@[0].prompt) == string_opt_view(e.prompt),
        r.1.handlers->0@[0].raw == handler_raw,
        all_ours(group_model(r.1)) == hook_is_ours_spec(string_opt_view(e.command), string_opt_view(e.prompt)),
{
    let h = HookHandler { command: e.command, prompt: e.prompt, raw: handler_raw };
    let ghost hv = h;
    let hs = vec![h];
    let g = HookGroup { handlers: Some(hs), raw: group_raw };
    assert(group_model(g).0->0 =~= seq![hv]);
    (e.event.to_owned(), g)
}

// ── SendMessage bridge ───────────────────────────────────

/// Whom a mirrored message is addressed to: the leader's registered role
/// (for a send to "main"), or a role by name.
pub enum BridgeRecipient {
    Leader,
    Role(String),
}

/// A native SendMessage call to mirror into the inbox.
pub struct BridgePlan {
    pub recipient: BridgeRecipient,
    pub subject: String,
    pub body: String,
}

/// The message to mirror for a native send with these string fields of its
/// `tool_input` (`to`, `message`, `summary`): nothing without a non-blank
/// recipient or without a plain-text message (protocol objects stay on the
/// native channel); the subject is the trimmed summary when it is not blank,
/// else the body shortened to 80 characters. `None` as recipient is the leader.
pub open spec fn bridge_plan_spec(
    to: Option<Seq<char>>,
    message: Option<Seq<char>>,
    summary: Option<Seq<char>>,
) -> Option<(Option<Seq<char>>, Seq<char>, Seq<char>)> {
    match to {
        None => None,
        Some(t) => if trim(t).len() == 0 {
            None
        } else {
            match message {
                None => None,
                Some(body) => {
                    let subject = match summary {
                        Some(s) if trim(s).len() > 0 => trim(s),
                        _ => truncated_text(body, 80),
                    };
                    Some((if trim(t) == "main"@ { None } else { Some(trim(t)) }, subject, body))
                },
            }
        },
    }
}

pub open spec fn bridge_plan_model(p: BridgePlan) -> (Option<Seq<char>>, Seq<char>, Seq<char>) {
    (
        match p.recipient {
            BridgeRecipient::Leader => None,
            BridgeRecipient::Role(r) => Some(r@),
        },
        p.subject@,
        p.body@,
    )
}

/// Decides what a native SendMessage call mirrors into the inbox.
pub fn plan_bridge(to: Option<&str>, message: Option<&str>, summary: Option<&str>) -> (r: Option<BridgePlan>)
    ensures
        match r {
            Some(p) => bridge_plan_spec(opt_view(to), opt_view(message), opt_view(summary)) == Some(bridge_plan_model(p)),
            None => bridge_plan_spec(opt_view(to), opt_view(message), opt_view(summary)) is None,
        },
{
    let to = match to {
        Some(t) => trim_str(t),
        None => return None,
    };
    if to.is_empty() {
        return None;
    }
    let body = match message {
        Some(b) => b,
        None => return None,
    };
    let subject = match summary {
        Some(s) if !trim_str(s).is_empty() => String::from_str(trim_str(s)),
        _ => truncate_chars(body, 80),
    };
    let recipient = if str_eq(to, "main") {
        BridgeRecipient::Leader
    } else {
        BridgeRecipient::Role(String::from_str(to))
    };
    Some(BridgePlan { recipient, subject, body: String::from_str(body) })
}

// ── hook input and routing ───────────────────────────────

/// The string fields of a hook's JSON input that the hooks read: `session_id`,
/// `agent_id`, `cwd`, `agent_name`, `name`, and `tool_input`'s `to`,
/// `message` and `summary`. A field that is absent or not a string is `None`.
pub struct HookInput {
    pub session_id: Option<String>,
    pub agent_id: Option<String>,
    pub cwd: Option<String>,
    pub agent_name: Option<String>,
    pub name: Option<String>,
    pub to: Option<String>,
    pub message: Option<String>,
    pub summary: Option<String>,
}

pub type HookInputView = (
    Option<Seq<char>>,
    Option<Seq<char>>,
    Option<Seq<char>>,
    Option<Seq<char>>,
    Option<Seq<char>>,
    Option<Seq<char>>,
    Option<Seq<char>>,
    Option<Seq<char>>,
);

pub open spec fn input_view(i: HookInput) -> HookInputView {
    (
        string_opt_view(i.session_id),
        string_opt_view(i.agent_id),
        string_opt_view(i.cwd),
        string_opt_view(i.agent_name),
        string_opt_view(i.name),
        string_opt_view(i.to),
        string_opt_view(i.message),
        string_opt_view(i.summary),
    )
}

pub open spec fn opt_input_view(i: Option<HookInput>) -> Option<HookInputView> {
    match i {
        Some(x) => Some(input_view(x)),
        None => None,
    }
}

/// What `serde_json` reads of a hook's input text: its string fields, or
/// nothing when the text is not JSON.
pub uninterp spec fn hook_input_of(
    text: Seq<char>,
) -> Option<(
    Option<Seq<char>>,
    Option<Seq<char>>,
    Option<Seq<char>>,
    Option<Seq<char>>,
    Option<Seq<char>>,
    Option<Seq<char>>,
    Option<Seq<char>>,
    Option<Seq<char>>,
)>;

/// `serde_json::from_str::<serde_json::Value>(text)`, then the string value at
/// each field's JSON pointer (`Value::pointer` and `Value::as_str`); `None`
/// when the text is not JSON. The result depends on the text alone.
#[verifier::external_body]
fn parse_hook_input(text: &str) -> (r: Option<HookInput>)
    ensures
        opt_input_view(r) == hook_input_of(text@),
{
    let v: serde_json::Value = serde_json::from_str(text).ok()?;
    let f = |p: &str| v.pointer(p).and_then(serde_json::Value::as_str).map(String::from);
    Some(HookInput {
        session_id: f("/session_id"), agent_id: f("/agent_id"), cwd: f("/cwd"),
        agent_name: f("/agent_name"), name: f("/name"), to: f("/tool_input/to"),
        message: f("/tool_input/message"), summary: f("/tool_input/summary"),
    })
}

/// Reads a hook's input text.
pub fn read_hook_input(text: &str) -> (r: Option<HookInput>)
    ensures
        opt_input_view(r) == hook_input_of(text@),
{
    parse_hook_input(text)
}

/// What a hook does for its input.
pub enum HookStep {
    /// Nothing: no output and no database work.
    Nothing,
    /// Print this context for the agent.
    Inject(String),
    /// Register `role` for the `(session_id, agent_id)` identity without
    /// clobbering a role it set itself; print `registered` when that worked,
    /// else `unregistered`.
    AutoRegister {
        session_id: String,
        agent_id: String,
        role: String,
        registered: String,
        unregistered: String,
    },
    /// Look up the role registered for `(session_id, agent_id)` and ring the
    /// inbox doorbell for it (`inbox_doorbell`, which rings for no role).
    Doorbell { session_id: String, agent_id: String },
    /// Mirror a native send of `(session_id, agent_id)` into the inbox.
    Bridge { session_id: String, agent_id: String, plan: BridgePlan },
}

/// A hook step as values.
pub enum HookStepModel {
    Nothing,
    Inject(Seq<char>),
    AutoRegister(Seq<char>, Seq<char>, Seq<char>, Seq<char>, Seq<char>),
    Doorbell(Seq<char>, Seq<char>),
    Bridge(Seq<char>, Seq<char>, (Option<Seq<char>>, Seq<char>, Seq<char>)),
}

pub open spec fn step_model(s: HookStep) -> HookStepModel {
    match s {
        HookStep::Nothing => HookStepModel::Nothing,
        HookStep::Inject(t) => HookStepModel::Inject(t@),
        HookStep::AutoRegister { session_id, agent_id, role, registered, unregistered } =>
            HookStepModel::AutoRegister(session_id@, agent_id@, role@, registered@, unregistered@),
        HookStep::Doorbell { session_id, agent_id } => HookStepModel::Doorbell(session_id@, agent_id@),
        HookStep::Bridge { session_id, agent_id, plan } => HookStepModel::Bridge(
            session_id@,
            agent_id@,
            bridge_plan_model(plan),
        ),
    }
}

/// How a hook routes its input. Without a non-empty session id it does
/// nothing, whatever the mode. SessionStart injects the session hint without
/// touching the database. SubagentStart injects the subagent hint, first
/// auto-registering the subagent under its name when it has one and the
/// database exists. The other hooks need the database: Inbox rings the
/// doorbell, SendBridge mirrors a plain-text send (and injects nothing), and
/// the retired task hook does nothing. A missing agent id is the main session's
/// empty one.
pub open spec fn hook_step_spec(mode: HookMode, input: HookInputView, db_exists: bool) -> HookStepModel {
    let session = match input.0 {
        Some(s) => s,
        None => ""@,
    };
    let agent = match input.1 {
        Some(a) => a,
        None => ""@,
    };
    if session.len() == 0 {
        HookStepModel::Nothing
    } else {
        match mode {
            HookMode::SessionStart => HookStepModel::Inject(session_start_text(session)),
            HookMode::SubagentStart => match subagent_name_of(input.3, input.4) {
                Some(n) => if db_exists {
                    HookStepModel::AutoRegister(
                        session,
                        agent,
                        n,
                        subagent_start_text(agent, session, Some(n)),
                        subagent_start_text(agent, session, None),
                    )
                } else {
                    HookStepModel::Inject(subagent_start_text(agent, session, None))
                },
                None => HookStepModel::Inject(subagent_start_text(agent, session, None)),
            },
            HookMode::Inbox => if db_exists {
                HookStepModel::Doorbell(session, agent)
            } else {
                HookStepModel::Nothing
            },
            HookMode::SendBridge => if db_exists {
                match bridge_plan_spec(input.5, input.6, input.7) {
                    Some(pl) => HookStepModel::Bridge(session, agent, pl),
                    None => HookStepModel::Nothing,
                }
            } else {
                HookStepModel::Nothing
            },
            HookMode::LegacyTask => HookStepModel::Nothing,
        }
    }
}

fn opt_str_of(o: &Option<String>) -> (r: Option<&str>)
    ensures
        opt_view(r) == string_opt_view(*o),
{
    match o {
        Some(s) => Some(s.as_str()),
        None => None,
    }
}

/// Decides what a hook does for its input; `db_exists` says whether the
/// project's database exists.
pub fn hook_step(mode: HookMode, input: &HookInput, db_exists: bool) -> (r: HookStep)
    ensures
        step_model(r) == hook_step_spec(mode, input_view(*input), db_exists),
{
    let session: &str = match &input.session_id {
        Some(s) => s.as_str(),
        None => "",
    };
    let agent: &str = match &input.agent_id {
        Some(a) => a.as_str(),
        None => "",
    };
    proof {
        reveal_strlit("");
    }
    if session.is_empty() {
        return HookStep::Nothing;
    }
    match mode {
        HookMode::SessionStart => HookStep::Inject(session_start_context(session)),
        HookMode::SubagentStart => match subagent_name(opt_str_of(&input.agent_name), opt_str_of(&input.name)) {
            Some(n) => {
                if db_exists {
                    let registered = subagent_start_context(agent, session, Some(n.as_str()));
                    let unregistered = subagent_start_context(agent, session, None);
                    HookStep::AutoRegister {
                        session_id: String::from_str(session),
                        agent_id: String::from_str(agent),
                        role: n,
                        registered,
                        unregistered,
                    }
                } else {
                    HookStep::Inject(subagent_start_context(agent, session, None))
                }
            },
            None => HookStep::Inject(subagent_start_context(agent, session, None)),
        },
        HookMode::Inbox => {
            if db_exists {
                HookStep::Doorbell { session_id: String::from_str(session), agent_id: String::from_str(agent) }
            } else {
                HookStep::Nothing
            }
        },
        HookMode::SendBridge => {
            if db_exists {
                match plan_bridge(opt_str_of(&input.to), opt_str_of(&input.message), opt_str_of(&input.summary)) {
                    Some(plan) => HookStep::Bridge {
                        session_id: String::from_str(session),
                        agent_id: String::from_str(agent),
                        plan,
                    },
                    None => HookStep::Nothing,
                }
            } else {
                HookStep::Nothing
            }
        },
        HookMode::LegacyTask => HookStep::Nothing,
    }
}

// ── the settings.json hooks table ────────────────────────

/// The value of one event in settings.json's `hooks` object: its array of
/// matcher-groups, or some other JSON value `V`.
pub enum EventEntry<G, T, V> {
    Groups(Vec<HookGroup<G, T>>),
    Other(V),
}

/// An event's value as a value.
pub enum EventModel<G, T, V> {
    Groups(Seq<GroupModel<G, T>>),
    Other(V),
}

pub open spec fn event_model<G, T, V>(e: EventEntry<G, T, V>) -> EventModel<G, T, V> {
    match e {
        EventEntry::Groups(v) => EventModel::Groups(group_models(v@)),
        EventEntry::Other(x) => EventModel::Other(x),
    }
}

/// The `hooks` object as its (event name, value) entries.
pub open spec fn table_model<G, T, V>(t: Seq<(String, EventEntry<G, T, V>)>) -> Seq<
    (Seq<char>, EventModel<G, T, V>),
> {
    t.map_values(|e: (String, EventEntry<G, T, V>)| (e.0@, event_model(e.1)))
}

/// An install plan as (event name, group) values.
pub open spec fn plan_model<G, T>(p: Seq<(String, HookGroup<G, T>)>) -> Seq<(Seq<char>, GroupModel<G, T>)> {
    p.map_values(|e: (String, HookGroup<G, T>)| (e.0@, group_model(e.1)))
}

/// `i` is the first entry of `t` named `k`.
pub open spec fn first_key_at<X>(t: Seq<(Seq<char>, X)>, k: Seq<char>, i: int) -> bool {
    &&& 0 <= i < t.len()
    &&& t[i].0 == k
    &&& forall|j: int| 0 <= j < i ==> t[j].0 != k
}

/// The position of the entry named `k`, if there is one.
pub open spec fn key_pos<X>(t: Seq<(Seq<char>, X)>, k: Seq<char>) -> Option<int> {
    if exists|i: int| first_key_at(t, k, i) {
        Some(choose|i: int| first_key_at(t, k, i))
    } else {
        None
    }
}

proof fn lemma_key_pos<X>(t: Seq<(Seq<char>, X)>, k: Seq<char>, i: int)
    requires
        first_key_at(t, k, i),
    ensures
        key_pos(t, k) == Some(i),
{
    let c = choose|j: int| first_key_at(t, k, j);
    assert(first_key_at(t, k, c));
    if c < i {
        assert(t[c].0 != k);
    }
    if i < c {
        assert(t[i].0 != k);
    }
}

proof fn lemma_key_pos_none<X>(t: Seq<(Seq<char>, X)>, k: Seq<char>)
    requires
        forall|j: int| 0 <= j < t.len() ==> t[j].0 != k,
    ensures
        key_pos(t, k) is None,
{
}

pub open spec fn not_array_error(k: Seq<char>) -> Seq<char> {
    "settings.json 'hooks."@ + k + "' is not an array"@
}

/// One install step on the `hooks` object: event `k`'s groups have our
/// handlers stripped and group `g` appended (an absent event is added with
/// just `g`); an event whose value is not an array is refused.
pub open spec fn install_one<G, T, V>(
    t: Seq<(Seq<char>, EventModel<G, T, V>)>,
    k: Seq<char>,
    g: GroupModel<G, T>,
) -> Result<Seq<(Seq<char>, EventModel<G, T, V>)>, Seq<char>> {
    match key_pos(t, k) {
        Some(i) => match t[i].1 {
            EventModel::Groups(gs) => Ok(t.update(i, (k, EventModel::Groups(install_model(gs, g))))),
            EventModel::Other(_) => Err(not_array_error(k)),
        },
        None => Ok(t.push((k, EventModel::Groups(install_model(Seq::empty(), g))))),
    }
}

/// The install steps of a plan, in order; the first refusal ends it.
pub open spec fn install_all<G, T, V>(
    t: Seq<(Seq<char>, EventModel<G, T, V>)>,
    p: Seq<(Seq<char>, GroupModel<G, T>)>,
) -> Result<Seq<(Seq<char>, EventModel<G, T, V>)>, Seq<char>>
    decreases p.len(),
{
    if p.len() == 0 {
        Ok(t)
    } else {
        match install_all(t, p.drop_last()) {
            Ok(t1) => install_one(t1, p.last().0, p.last().1),
            Err(e) => Err(e),
        }
    }
}

/// The position of the entry named `k` in `t`, if any.
fn find_event<G, T, V>(t: &Vec<(String, EventEntry<G, T, V>)>, k: &str) -> (r: Option<usize>)
    ensures
        match r {
            Some(i) => key_pos(table_model(t@), k@) == Some(i as int),
            None => key_pos(table_model(t@), k@) is None,
        },
{
    let ghost m = table_model(t@);
    let mut j: usize = 0;
    while j < t.len()
        invariant
            j <= t@.len(),
            m == table_model(t@),
            forall|i: int| 0 <= i < j ==> m[i].0 != k@,
        decreases t@.len() - j,
    {
        if str_eq(t[j].0.as_str(), k) {
            proof {
                lemma_key_pos(m, k@, j as int);
            }
            return Some(j);
        }
        j += 1;
    }
    proof {
        lemma_key_pos_none(m, k@);
    }
    None
}

/// Installs the plan's groups into the `hooks` object's entries: for each
/// (event, group) in order, that event's earlier handlers of ours are
/// stripped and the group appended (an absent event is added); an event
/// whose value is not an array refuses the install.
pub fn install_events<G, T, V>(
    table: Vec<(String, EventEntry<G, T, V>)>,
    plan: Vec<(String, HookGroup<G, T>)>,
) -> (r: Result<Vec<(String, EventEntry<G, T, V>)>, String>)
    ensures
        match r {
            Ok(t) => install_all(table_model(table@), plan_model(plan@)) == Ok::<
                Seq<(Seq<char>, EventModel<G, T, V>)>,
                Seq<char>,
            >(table_model(t@)),
            Err(m) => install_all(table_model(table@), plan_model(plan@)) == Err::<
                Seq<(Seq<char>, EventModel<G, T, V>)>,
                Seq<char>,
            >(m@),
        },
{
    let ghost t0 = table_model(table@);
    let ghost p0 = plan_model(plan@);
    let ghost orig = plan@;
    let total = plan.len();
    let mut t = table;
    let mut rest = plan;
    let mut i: usize = 0;
    while rest.len() > 0
        invariant
            i + rest@.len() == orig.len(),
            orig.len() == total,
            rest@ == orig.skip(i as int),
            p0 == plan_model(orig),
            t0 == table_model(table@),
            orig == plan@,
            install_all(t0, p0.take(i as int)) == Ok::<Seq<(Seq<char>, EventModel<G, T, V>)>, Seq<char>>(
                table_model(t@),
            ),
        decreases rest@.len(),
    {
        let (k, g) = rest.remove(0);
        proof {
            assert(orig[i as int] == (k, g));
            assert(rest@ =~= orig.skip(i + 1));
            assert(p0.take(i + 1).drop_last() =~= p0.take(i as int));
            assert(p0.take(i + 1).last() == (k@, group_model(g)));
        }
        let ghost before = table_model(t@);
        match find_event(&t, k.as_str()) {
            Some(idx) => {
                let (key, val) = t.remove(idx);
                match val {
                    EventEntry::Groups(mut gs) => {
                        let ghost old_gs = group_models(gs@);
                        install_group(&mut gs, g);
                        t.insert(idx, (key, EventEntry::Groups(gs)));
                        proof {
                            assert(before[idx as int].0 == k@);
                            assert(table_model(t@) =~= before.update(
                                idx as int,
                                (k@, EventModel::Groups(install_model(old_gs, group_model(g)))),
                            ));
                        }
                    },
                    EventEntry::Other(v) => {
                        let mut m = String::from_str("settings.json 'hooks.");
                        m.append(k.as_str());
                        m.append("' is not an array");
                        proof {
                            reveal_strlit("settings.json 'hooks.");
                            reveal_strlit("' is not an array");
                            assert(m@ =~= not_array_error(k@));
                            assert(install_all(t0, p0.take(i + 1)) == Err::<
                                Seq<(Seq<char>, EventModel<G, T, V>)>,
                                Seq<char>,
                            >(not_array_error(k@)));
                            let p1 = p0.take(i + 1);
                            lemma_install_all_err_extends(t0, p1, p0);
                            assert(p0.take(i + 1) =~= p1);
                            assert(install_all(t0, p0) == Err::<
                                Seq<(Seq<char>, EventModel<G, T, V>)>,
                                Seq<char>,
                            >(m@));
                        }
                        return Err(m);
                    },
                }
            },
            None => {
                let mut gs: Vec<HookGroup<G, T>> = Vec::new();
                install_group(&mut gs, g);
                t.push((k, EventEntry::Groups(gs)));
                proof {
                    assert(group_models(Seq::<HookGroup<G, T>>::empty()) =~= Seq::<GroupModel<G, T>>::empty());
                    assert(table_model(t@) =~= before.push(
                        (k@, EventModel::Groups(install_model(Seq::empty(), group_model(g)))),
                    ));
                }
            },
        }
        i += 1;
    }
    assert(p0.take(i as int) =~= p0);
    Ok(t)
}

/// A refusal stands however the plan goes on.
proof fn lemma_install_all_err_extends<G, T, V>(
    t: Seq<(Seq<char>, EventModel<G, T, V>)>,
    p: Seq<(Seq<char>, GroupModel<G, T>)>,
    q: Seq<(Seq<char>, GroupModel<G, T>)>,
)
    requires
        install_all(t, p) is Err,
        p.len() <= q.len(),
        p =~= q.take(p.len() as int),
    ensures
        install_all(t, q) == install_all(t, p),
    decreases q.len(),
{
    if q.len() > p.len() {
        assert(q.drop_last().take(p.len() as int) =~= p);
        lemma_install_all_err_extends(t, p, q.drop_last());
    } else {
        assert(q =~= p);
    }
}


/// The value of the entry named `k`, if there is one.
pub open spec fn lookup<X>(t: Seq<(Seq<char>, X)>, k: Seq<char>) -> Option<X> {
    match key_pos(t, k) {
        Some(i) => Some(t[i].1),
        None => None,
    }
}

/// An event's groups before an install: its array, or none where it is absent.
pub open spec fn groups_before<G, T, V>(e: Option<EventModel<G, T, V>>) -> Seq<GroupModel<G, T>> {
    match e {
        Some(EventModel::Groups(gs)) => gs,
        _ => Seq::empty(),
    }
}

/// An event that is present and holds something other than an array.
pub open spec fn is_other<G, T, V>(e: Option<EventModel<G, T, V>>) -> bool {
    match e {
        Some(EventModel::Other(_)) => true,
        _ => false,
    }
}

/// No two entries share a name.
pub open spec fn distinct_keys<X>(p: Seq<(Seq<char>, X)>) -> bool {
    forall|a: int, b: int| 0 <= a < b < p.len() ==> p[a].0 != p[b].0
}

proof fn lemma_first_exists<X>(t: Seq<(Seq<char>, X)>, k: Seq<char>, j: int)
    requires
        0 <= j < t.len(),
        t[j].0 == k,
    ensures
        key_pos(t, k) is Some,
    decreases j,
{
    if exists|j2: int| 0 <= j2 < j && t[j2].0 == k {
        let j2 = choose|j2: int| 0 <= j2 < j && t[j2].0 == k;
        lemma_first_exists(t, k, j2);
    } else {
        assert(first_key_at(t, k, j));
    }
}

proof fn lemma_same_keys<X>(t1: Seq<(Seq<char>, X)>, t2: Seq<(Seq<char>, X)>, k: Seq<char>)
    requires
        t1.len() == t2.len(),
        forall|i: int| 0 <= i < t1.len() ==> t1[i].0 == t2[i].0,
    ensures
        key_pos(t1, k) == key_pos(t2, k),
{
    match key_pos(t1, k) {
        Some(i) => {
            assert(first_key_at(t2, k, i));
            lemma_key_pos(t2, k, i);
        },
        None => {
            match key_pos(t2, k) {
                Some(i) => {
                    assert(first_key_at(t1, k, i));
                    lemma_key_pos(t1, k, i);
                },
                None => {},
            }
        },
    }
}

proof fn lemma_update_lookup<X>(t: Seq<(Seq<char>, X)>, i: int, k: Seq<char>, v: X)
    requires
        first_key_at(t, k, i),
    ensures
        lookup(t.update(i, (k, v)), k) == Some(v),
        forall|k2: Seq<char>| k2 != k ==> lookup(t.update(i, (k, v)), k2) == lookup(t, k2),
{
    let t2 = t.update(i, (k, v));
    lemma_key_pos(t, k, i);
    lemma_same_keys(t, t2, k);
    assert forall|k2: Seq<char>| k2 != k implies lookup(t2, k2) == lookup(t, k2) by {
        lemma_same_keys(t, t2, k2);
    }
}

proof fn lemma_push_lookup<X>(t: Seq<(Seq<char>, X)>, k: Seq<char>, v: X)
    requires
        key_pos(t, k) is None,
    ensures
        lookup(t.push((k, v)), k) == Some(v),
        forall|k2: Seq<char>| k2 != k ==> lookup(t.push((k, v)), k2) == lookup(t, k2),
{
    let t2 = t.push((k, v));
    assert forall|j: int| 0 <= j < t.len() implies t[j].0 != k by {
        if t[j].0 == k {
            lemma_first_exists(t, k, j);
        }
    }
    assert(first_key_at(t2, k, t.len() as int));
    lemma_key_pos(t2, k, t.len() as int);
    assert forall|k2: Seq<char>| k2 != k implies lookup(t2, k2) == lookup(t, k2) by {
        match key_pos(t, k2) {
            Some(i) => {
                assert(first_key_at(t2, k2, i));
                lemma_key_pos(t2, k2, i);
            },
            None => {
                assert forall|j: int| 0 <= j < t2.len() implies t2[j].0 != k2 by {
                    if j < t.len() && t[j].0 == k2 {
                        lemma_first_exists(t, k2, j);
                    }
                }
                lemma_key_pos_none(t2, k2);
            },
        }
    }
}

/// Installing a plan that names each event once touches only the plan's
/// events. Each of them ends with its earlier groups (none where it was
/// absent), our handlers stripped and the plan's group appended; every other
/// event keeps its value. The install is refused exactly when one of the
/// plan's events holds something other than an array, with the error of the
/// first such event in the plan.
pub proof fn law_install_events<G, T, V>(
    t: Seq<(Seq<char>, EventModel<G, T, V>)>,
    p: Seq<(Seq<char>, GroupModel<G, T>)>,
)
    requires
        distinct_keys(p),
    ensures
        install_all(t, p) is Ok <==> forall|j: int| 0 <= j < p.len() ==> !is_other(lookup(t, #[trigger] p[j].0)),
        install_all(t, p) is Err ==> exists|j: int|
            0 <= j < p.len() && is_other(lookup(t, #[trigger] p[j].0)) && install_all(t, p)->Err_0
                == not_array_error(p[j].0) && forall|j2: int| 0 <= j2 < j ==> !is_other(lookup(t, #[trigger] p[j2].0)),
        install_all(t, p) is Ok ==> forall|j: int| 0 <= j < p.len() ==> lookup(install_all(t, p)->Ok_0, #[trigger] p[j].0)
            == Some(EventModel::<G, T, V>::Groups(install_model(groups_before(lookup(t, p[j].0)), p[j].1))),
        install_all(t, p) is Ok ==> forall|k: Seq<char>|
            (forall|j: int| 0 <= j < p.len() ==> p[j].0 != k) ==> lookup(install_all(t, p)->Ok_0, k) == lookup(t, k),
    decreases p.len(),
{
    if p.len() > 0 {
        let q = p.drop_last();
        let n = p.len() - 1;
        let k = p.last().0;
        let g = p.last().1;
        assert forall|j: int| 0 <= j < q.len() implies q[j] == p[j] by {}
        assert(distinct_keys(q));
        law_install_events(t, q);
        assert forall|j: int| 0 <= j < q.len() implies p[j].0 != k by {
            assert(p[j].0 != p[n].0);
        }
        match install_all(t, q) {
            Err(e) => {
                let j = choose|j: int|
                    0 <= j < q.len() && is_other(lookup(t, #[trigger] q[j].0)) && e == not_array_error(q[j].0)
                        && forall|j2: int| 0 <= j2 < j ==> !is_other(lookup(t, #[trigger] q[j2].0));
                assert(q[j] == p[j]);
                assert forall|j2: int| 0 <= j2 < j implies !is_other(lookup(t, #[trigger] p[j2].0)) by {
                    assert(q[j2] == p[j2]);
                }
            },
            Ok(t1) => {
                assert(lookup(t1, k) == lookup(t, k));
                match key_pos(t1, k) {
                    Some(i) => {
                        match t1[i].1 {
                            EventModel::Groups(gs) => {
                                lemma_update_lookup(t1, i, k, EventModel::<G, T, V>::Groups(install_model(gs, g)));
                            },
                            EventModel::Other(_) => {
                                assert forall|j2: int| 0 <= j2 < n implies !is_other(lookup(t, #[trigger] p[j2].0)) by {
                                    assert(q[j2] == p[j2]);
                                }
                            },
                        }
                    },
                    None => {
                        lemma_push_lookup(t1, k, EventModel::<G, T, V>::Groups(install_model(Seq::empty(), g)));
                    },
                }
            },
        }
    }
}

/// Every event of the plan holds its group installed over some earlier groups.
spec fn holds_installed<G, T, V>(t2: Seq<(Seq<char>, EventModel<G, T, V>)>, t: Seq<(Seq<char>, EventModel<G, T, V>)>, p: Seq<(Seq<char>, GroupModel<G, T>)>) -> bool {
    forall|j: int| 0 <= j < p.len() ==> lookup(t2, #[trigger] p[j].0)
        == Some(EventModel::<G, T, V>::Groups(install_model(groups_before(lookup(t, p[j].0)), p[j].1)))
}

proof fn lemma_install_fixed<G, T, V>(
    t2: Seq<(Seq<char>, EventModel<G, T, V>)>,
    t: Seq<(Seq<char>, EventModel<G, T, V>)>,
    p: Seq<(Seq<char>, GroupModel<G, T>)>,
    n: int,
)
    requires
        0 <= n <= p.len(),
        holds_installed(t2, t, p),
        forall|j: int| 0 <= j < p.len() ==> all_ours(#[trigger] p[j].1),
    ensures
        install_all(t2, p.take(n)) == Ok::<Seq<(Seq<char>, EventModel<G, T, V>)>, Seq<char>>(t2),
    decreases n,
{
    if n > 0 {
        lemma_install_fixed(t2, t, p, n - 1);
        let pn = p.take(n);
        assert(pn.drop_last() =~= p.take(n - 1));
        let k = p[n - 1].0;
        let g = p[n - 1].1;
        assert(pn.last() == p[n - 1]);
        assert(all_ours(p[n - 1].1));
        let x = groups_before(lookup(t, k));
        assert(lookup(t2, k) == Some(EventModel::<G, T, V>::Groups(install_model(x, g))));
        let i = key_pos(t2, k)->0;
        assert(first_key_at(t2, k, i));
        law_reinstall_replaces(x, g);
        assert(t2.update(i, (k, EventModel::<G, T, V>::Groups(install_model(install_model(x, g), g)))) =~= t2);
    }
}

/// Installing the same plan a second time changes nothing: each group of
/// ours replaces itself, and the user's groups stay where they were.
pub proof fn law_install_events_twice<G, T, V>(
    t: Seq<(Seq<char>, EventModel<G, T, V>)>,
    p: Seq<(Seq<char>, GroupModel<G, T>)>,
)
    requires
        distinct_keys(p),
        forall|j: int| 0 <= j < p.len() ==> all_ours(#[trigger] p[j].1),
        install_all(t, p) is Ok,
    ensures
        install_all(install_all(t, p)->Ok_0, p) == install_all(t, p),
{
    let t2 = install_all(t, p)->Ok_0;
    law_install_events(t, p);
    lemma_install_fixed(t2, t, p, p.len() as int);
    assert(p.take(p.len() as int) =~= p);
}


/// `p` is the plan that `entry_group` makes of the install entries for the
/// binary at `bin`: each entry's event, with a group of its handler alone.
pub open spec fn is_install_plan<G, T>(p: Seq<(Seq<char>, GroupModel<G, T>)>, bin: Seq<char>) -> bool {
    &&& p.len() == install_plan_model(bin).len()
    &&& forall|j: int|
        #![trigger p[j]]
        0 <= j < p.len() ==> {
            let e = install_plan_model(bin)[j];
            &&& p[j].0 == e.0
            &&& p[j].1.0 is Some
            &&& p[j].1.0->0.len() == 1
            &&& string_opt_view(p[j].1.0->0[0].command) == e.2
            &&& string_opt_view(p[j].1.0->0[0].prompt) == e.3
        }
}

/// Installing the hooks of a binary whose path names workslate a second time
/// changes nothing: the hooks table after the second install is the one
/// after the first (a renamed binary's commands are not recognized as ours).
pub proof fn law_reinstalling_the_plan_changes_nothing<G, T, V>(
    bin: Seq<char>,
    t: Seq<(Seq<char>, EventModel<G, T, V>)>,
    p: Seq<(Seq<char>, GroupModel<G, T>)>,
)
    requires
        contains(bin, "workslate"@),
        is_install_plan(p, bin),
        install_all(t, p) is Ok,
    ensures
        install_all(install_all(t, p)->Ok_0, p) == install_all(t, p),
{
    assert forall|a: int, b: int| 0 <= a < b < p.len() implies p[a].0 != p[b].0 by {
        law_install_plan_events_distinct(bin, a, b);
    }
    assert forall|j: int| 0 <= j < p.len() implies all_ours(#[trigger] p[j].1) by {
        law_installed_entries_are_ours(bin, j);
        let hs = p[j].1.0->0;
        assert forall|i: int| 0 <= i < hs.len() implies handler_is_ours(#[trigger] hs[i]) by {
            assert(i == 0);
        }
    }
    law_install_events_twice(t, p);
}


/// An uninstall on one entry of the `hooks` object: an event of ours whose
/// value is an array has our handlers stripped; anything else is left as it is.
pub open spec fn uninstall_entry<G, T, V>(e: (Seq<char>, EventModel<G, T, V>)) -> (Seq<char>, EventModel<G, T, V>) {
    match e.1 {
        EventModel::Groups(gs) => if ws_hook_event_names().contains(e.0) {
            (e.0, EventModel::Groups(strip_model(gs)))
        } else {
            e
        },
        EventModel::Other(_) => e,
    }
}

/// An uninstall on the whole `hooks` object.
pub open spec fn uninstall_model<G, T, V>(t: Seq<(Seq<char>, EventModel<G, T, V>)>) -> Seq<(Seq<char>, EventModel<G, T, V>)> {
    t.map_values(|e: (Seq<char>, EventModel<G, T, V>)| uninstall_entry(e))
}

/// Whether `k` names one of our hook events.
fn is_ws_event(k: &str) -> (r: bool)
    ensures
        r == ws_hook_event_names().contains(k@),
{
    let events = ws_hook_events();
    let ghost names = ws_hook_event_names();
    let mut i: usize = 0;
    while i < events.len()
        invariant
            i <= events@.len(),
            events@.map_values(|e: &'static str| e@) == names,
            names == ws_hook_event_names(),
            forall|j: int| 0 <= j < i ==> names[j] != k@,
        decreases events@.len() - i,
    {
        assert(names[i as int] == events@[i as int]@);
        if str_eq(events[i], k) {
            return true;
        }
        i += 1;
    }
    false
}

/// Removes our handlers from the `hooks` object's entries: each event of
/// ours whose value is an array has them stripped (a group left with no
/// handler is dropped); every other entry is kept as it is.
pub fn uninstall_events<G, T, V>(table: Vec<(String, EventEntry<G, T, V>)>) -> (r: Vec<(String, EventEntry<G, T, V>)>)
    ensures
        table_model(r@) == uninstall_model(table_model(table@)),
{
    let ghost t0 = table_model(table@);
    let ghost n = table@.len();
    let mut rest = table;
    let mut out: Vec<(String, EventEntry<G, T, V>)> = Vec::new();
    while rest.len() > 0
        invariant
            out@.len() + rest@.len() == n,
            t0.len() == n,
            table_model(out@) == uninstall_model(t0).take(out@.len() as int),
            table_model(rest@) == t0.skip(out@.len() as int),
        decreases rest@.len(),
    {
        let ghost before_rest = table_model(rest@);
        let ghost i = out@.len() as int;
        let (k, e) = rest.remove(0);
        proof {
            assert(before_rest[0] == t0[i]);
            assert(table_model(rest@) =~= before_rest.skip(1));
            assert(table_model(rest@) =~= t0.skip(i + 1));
        }
        let ours = is_ws_event(k.as_str());
        let e2 = match e {
            EventEntry::Groups(mut gs) => {
                if ours {
                    strip_our_hooks(&mut gs);
                }
                EventEntry::Groups(gs)
            },
            EventEntry::Other(v) => EventEntry::Other(v),
        };
        out.push((k, e2));
        proof {
            assert(table_model(out@) =~= uninstall_model(t0).take(i + 1));
        }
    }
    proof {
        assert(uninstall_model(t0).take(n as int) =~= uninstall_model(t0));
    }
    out
}

proof fn lemma_uninstall_lookup<G, T, V>(t: Seq<(Seq<char>, EventModel<G, T, V>)>, k: Seq<char>)
    ensures
        lookup(uninstall_model(t), k) == match lookup(t, k) {
            Some(v) => Some(uninstall_entry((k, v)).1),
            None => None::<EventModel<G, T, V>>,
        },
{
    let u = uninstall_model(t);
    assert forall|i: int| 0 <= i < t.len() implies t[i].0 == u[i].0 by {}
    lemma_same_keys(t, u, k);
    match key_pos(t, k) {
        Some(i) => {
            assert(first_key_at(t, k, i));
        },
        None => {},
    }
}

/// Whether the plan names event `k`.
pub open spec fn plan_has<X>(p: Seq<(Seq<char>, X)>, k: Seq<char>) -> bool {
    exists|j: int| 0 <= j < p.len() && p[j].0 == k
}

/// Uninstalling after an install of a binary whose path names workslate
/// leaves exactly what uninstalling would have left before it: the user's
/// entries, in place. The one trace of the install is an event of the plan
/// that was absent before, which is left as an empty array.
pub proof fn law_uninstall_after_install<G, T, V>(
    bin: Seq<char>,
    t: Seq<(Seq<char>, EventModel<G, T, V>)>,
    p: Seq<(Seq<char>, GroupModel<G, T>)>,
    k: Seq<char>,
)
    requires
        contains(bin, "workslate"@),
        is_install_plan(p, bin),
        install_all(t, p) is Ok,
    ensures
        lookup(uninstall_model(install_all(t, p)->Ok_0), k) == if plan_has(p, k) && lookup(t, k) is None {
            Some(EventModel::<G, T, V>::Groups(Seq::empty()))
        } else {
            lookup(uninstall_model(t), k)
        },
{
    let t2 = install_all(t, p)->Ok_0;
    assert forall|a: int, b: int| 0 <= a < b < p.len() implies p[a].0 != p[b].0 by {
        law_install_plan_events_distinct(bin, a, b);
    }
    law_install_events(t, p);
    lemma_uninstall_lookup(t, k);
    lemma_uninstall_lookup(t2, k);
    if plan_has(p, k) {
        let j = choose|j: int| 0 <= j < p.len() && p[j].0 == k;
        let g = p[j].1;
        law_installed_entries_are_ours(bin, j);
        let hs = g.0->0;
        assert forall|i: int| 0 <= i < hs.len() implies handler_is_ours(#[trigger] hs[i]) by {
            assert(i == 0);
        }
        assert(all_ours(g));
        let x = groups_before(lookup(t, k));
        law_reinstall_replaces(x, g);
        reveal_strlit("PreToolUse");
        reveal_strlit("PostToolUse");
        reveal_strlit("SessionStart");
        reveal_strlit("SubagentStart");
        reveal_strlit("Stop");
        assert(ws_hook_event_names()[j] == k);
        assert(ws_hook_event_names().contains(k));
        assert(!is_other(lookup(t, p[j].0)));
        if lookup(t, k) is None {
            assert(strip_model(Seq::<GroupModel<G, T>>::empty()) =~= Seq::<GroupModel<G, T>>::empty());
        }
    }
}


/// A native send is mirrored exactly when it names a non-blank recipient and
/// carries a plain-text message. The mirrored body is that message, unchanged
/// whatever its length; the recipient is the trimmed name, or the leader for
/// "main"; the subject is the trimmed summary when it is not blank, else the
/// message with its whitespace runs squashed, cut to 80 characters with an
/// ellipsis when longer.
pub proof fn law_bridge_mirrors_the_message(
    to: Option<Seq<char>>,
    message: Option<Seq<char>>,
    summary: Option<Seq<char>>,
)
    ensures
        bridge_plan_spec(to, message, summary) is Some <==> (to is Some && trim(to->0).len() > 0
            && message is Some),
        bridge_plan_spec(to, message, summary) is Some ==> ({
            let (rcpt, subject, body) = bridge_plan_spec(to, message, summary)->0;
            &&& body == message->0
            &&& rcpt is None <==> trim(to->0) == "main"@
            &&& rcpt is Some ==> rcpt->0 == trim(to->0)
            &&& (summary is Some && trim(summary->0).len() > 0) ==> subject == trim(summary->0)
            &&& !(summary is Some && trim(summary->0).len() > 0) ==> {
                let one = squash_ws(message->0);
                if one.len() <= 80 {
                    subject == one
                } else {
                    subject.len() == 81 && subject.take(80) == one.take(80) && subject[80] == '…'
                }
            }
        }),
{
    reveal_strlit("…");
    if bridge_plan_spec(to, message, summary) is Some && !(summary is Some && trim(summary->0).len() > 0) {
        let one = squash_ws(message->0);
        let (_, subject, _) = bridge_plan_spec(to, message, summary)->0;
        if one.len() > 80 {
            assert(subject == one.take(80) + "…"@);
            assert(subject.take(80) =~= one.take(80));
        }
    }
}


/// How a hook is routed. Without a non-empty session id it does nothing, in
/// every mode; the retired task hook always does nothing. Nothing that needs
/// the database is planned when it does not exist. SessionStart injects its
/// hint and never touches the database. SubagentStart auto-registers the
/// named agent exactly when the payload names it and the database exists,
/// and otherwise injects the unregistered hint. The inbox hook rings the
/// doorbell for the session and agent (an absent agent id is the main
/// session's empty one) when the database exists. SendMessage never injects:
/// it mirrors exactly the sends that `bridge_plan_spec` accepts.
pub proof fn law_hook_routing(mode: HookMode, input: HookInputView, db_exists: bool)
    ensures
        ({
            let r = hook_step_spec(mode, input, db_exists);
            let session = if input.0 is Some { input.0->0 } else { ""@ };
            let agent = if input.1 is Some { input.1->0 } else { ""@ };
            &&& session.len() == 0 ==> r == HookStepModel::Nothing
            &&& mode is LegacyTask ==> r == HookStepModel::Nothing
            &&& !db_exists ==> (r is Nothing || r is Inject)
            &&& (mode is SessionStart && session.len() > 0) ==> r == HookStepModel::Inject(session_start_text(session))
            &&& (mode is SubagentStart && session.len() > 0) ==> {
                &&& r is AutoRegister <==> (db_exists && subagent_name_of(input.3, input.4) is Some)
                &&& r is AutoRegister ==> r == HookStepModel::AutoRegister(
                    session,
                    agent,
                    subagent_name_of(input.3, input.4)->0,
                    subagent_start_text(agent, session, subagent_name_of(input.3, input.4)),
                    subagent_start_text(agent, session, None),
                )
                &&& !(r is AutoRegister) ==> r == HookStepModel::Inject(subagent_start_text(agent, session, None))
            }
            &&& (mode is Inbox && session.len() > 0) ==> r == (if db_exists {
                HookStepModel::Doorbell(session, agent)
            } else {
                HookStepModel::Nothing
            })
            &&& mode is SendBridge ==> !(r is Inject) && !(r is Doorbell) && !(r is AutoRegister)
            &&& (mode is SendBridge && session.len() > 0 && db_exists) ==> r == (match bridge_plan_spec(input.5, input.6, input.7) {
                Some(pl) => HookStepModel::Bridge(session, agent, pl),
                None => HookStepModel::Nothing,
            })
        }),
{
}


/// The doorbell reads the unread messages only through how many there are,
/// the newest one's subject and whether any of them is urgent: it opens with
/// the urgent flag exactly when one is, then the count.
pub proof fn law_doorbell_reads_count_latest_and_urgency(
    role: Seq<char>,
    a: Seq<(String, i64)>,
    b: Seq<(String, i64)>,
)
    requires
        a.len() > 0,
    ensures
        (exists|k: int| 0 <= k < a.len() && a[k].1 != 0) ==> doorbell_text(role, a).take(
            ("📨 🚨 URGENT — "@ + dec(a.len())).len() as int,
        ) == "📨 🚨 URGENT — "@ + dec(a.len()),
        !(exists|k: int| 0 <= k < a.len() && a[k].1 != 0) ==> doorbell_text(role, a).take(
            ("📨 "@ + dec(a.len())).len() as int,
        ) == "📨 "@ + dec(a.len()),
        (b.len() == a.len() && b[0].0@ == a[0].0@ && ((exists|k: int| 0 <= k < a.len() && a[k].1 != 0) <==> (exists|k: int|
            0 <= k < b.len() && b[k].1 != 0))) ==> doorbell_text(role, a) == doorbell_text(role, b),
{
    let t = doorbell_text(role, a);
    let any = exists|k: int| 0 <= k < a.len() && a[k].1 != 0;
    let head = "📨 "@ + (if any { "🚨 URGENT — "@ } else { Seq::empty() }) + dec(a.len());
    reveal_strlit("📨 ");
    reveal_strlit("🚨 URGENT — ");
    reveal_strlit("📨 🚨 URGENT — ");
    assert(t.take(head.len() as int) =~= head);
    if any {
        assert(head =~= "📨 🚨 URGENT — "@ + dec(a.len()));
    } else {
        assert(head =~= "📨 "@ + dec(a.len()));
    }
}

} // verus!
