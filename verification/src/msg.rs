//! Messaging: tool parameters, the session-context schema migration decision,
//! sender attribution, and the text of the messaging tools' results.

use vstd::prelude::*;

use crate::text::{append_dec, dec, str_eq, views};

verus! {

// ── Param structs ────────────────────────────────────────

pub struct RegisterParams {
    /// Your role name: the durable identity messages are addressed to.
    pub role: String,
    /// This agent session's id, from the SessionStart hint.
    pub session_id: Option<String>,
    /// This subagent's agent_id (empty for the main session); required.
    pub agent_id: Option<String>,
}

pub struct MsgSendParams {
    /// Recipient role name.
    pub recipient: String,
    /// One-line subject shown in the recipient's inbox doorbell
    pub subject: String,
    /// Full message body, returned when the recipient reads the inbox
    pub body: String,
    /// Mark urgent so the doorbell flags it.
    pub urgent: Option<bool>,
    /// Sender label; resolved from the caller's registered role when omitted.
    pub sender: Option<String>,
    /// This agent session's id: the message scope and half of the caller's identity.
    pub session_id: Option<String>,
    /// This subagent's agent_id: the other half of the caller's identity.
    pub agent_id: Option<String>,
}

pub struct InboxReadParams {
    /// Your role name. Returns unread messages addressed to this role and marks them read.
    pub role: String,
    /// This agent session's id: the message scope.
    pub session_id: Option<String>,
}

// ── schema ───────────────────────────────────────────────

/// Whether a `session_context` table with these columns has the old shape
/// (keyed by session id alone) and must be rebuilt: it exists but has no
/// `agent_id` column.
pub open spec fn needs_rebuild_spec(cols: Seq<Seq<char>>) -> bool {
    cols.len() > 0 && !cols.contains("agent_id"@)
}

pub fn session_context_needs_rebuild(cols: &[String]) -> (r: bool)
    ensures
        r == needs_rebuild_spec(views(cols@)),
{
    if cols.len() == 0 {
        return false;
    }
    let mut i: usize = 0;
    while i < cols.len()
        invariant
            i <= cols@.len(),
            forall|k: int| 0 <= k < i ==> cols@[k]@ != "agent_id"@,
        decreases cols@.len() - i,
    {
        if str_eq(cols[i].as_str(), "agent_id") {
            assert(views(cols@)[i as int] == "agent_id"@);
            return false;
        }
        i += 1;
    }
    assert(!views(cols@).contains("agent_id"@));
    true
}

/// The upsert for an agent's `(session id, agent id) → (scope, role)` row. An
/// explicit registration overwrites the role; an automatic one
/// (`keep_existing_role`) only fills a role that is not set yet.
pub fn upsert_session_context_sql(keep_existing_role: bool) -> (r: &'static str)
    ensures
        keep_existing_role ==> r@ == "INSERT INTO session_context (claude_session_id, agent_id, task_session, role, updated_at) VALUES (?, ?, ?, ?, datetime('now')) ON CONFLICT(claude_session_id, agent_id) DO UPDATE SET task_session = excluded.task_session, role = COALESCE(role, excluded.role), updated_at = datetime('now')"@,
        !keep_existing_role ==> r@ == "INSERT INTO session_context (claude_session_id, agent_id, task_session, role, updated_at) VALUES (?, ?, ?, ?, datetime('now')) ON CONFLICT(claude_session_id, agent_id) DO UPDATE SET task_session = excluded.task_session, role = excluded.role, updated_at = datetime('now')"@,
{
    if keep_existing_role {
        "INSERT INTO session_context (claude_session_id, agent_id, task_session, role, updated_at) VALUES (?, ?, ?, ?, datetime('now')) ON CONFLICT(claude_session_id, agent_id) DO UPDATE SET task_session = excluded.task_session, role = COALESCE(role, excluded.role), updated_at = datetime('now')"
    } else {
        "INSERT INTO session_context (claude_session_id, agent_id, task_session, role, updated_at) VALUES (?, ?, ?, ?, datetime('now')) ON CONFLICT(claude_session_id, agent_id) DO UPDATE SET task_session = excluded.task_session, role = excluded.role, updated_at = datetime('now')"
    }
}

// ── sender attribution ───────────────────────────────────

pub open spec fn opt_str(o: Option<&str>) -> Option<Seq<char>> {
    match o {
        Some(s) => Some(s@),
        None => None,
    }
}

pub open spec fn opt_string(o: Option<String>) -> Option<Seq<char>> {
    match o {
        Some(s) => Some(s@),
        None => None,
    }
}

/// The identity whose registered role decides the sender, if one does: only
/// without an explicit sender, with a session id, and with an explicit agent id.
pub open spec fn sender_lookup_spec(
    explicit: Option<Seq<char>>,
    session_id: Option<Seq<char>>,
    agent_id: Option<Seq<char>>,
) -> Option<(Seq<char>, Seq<char>)> {
    if explicit is Some {
        None
    } else {
        match (session_id, agent_id) {
            (Some(s), Some(a)) => Some((s, a)),
            _ => None,
        }
    }
}

/// The `(session id, agent id)` row whose role `resolve_sender` needs, if any.
pub fn sender_lookup(explicit: &Option<String>, session_id: Option<&str>, agent_id: Option<&str>) -> (r: Option<(String, String)>)
    ensures
        match r {
            Some((s, a)) => sender_lookup_spec(opt_string(*explicit), opt_str(session_id), opt_str(agent_id)) == Some((s@, a@)),
            None => sender_lookup_spec(opt_string(*explicit), opt_str(session_id), opt_str(agent_id)) is None,
        },
{
    if explicit.is_some() {
        return None;
    }
    match (session_id, agent_id) {
        (Some(s), Some(a)) => Some((String::from_str(s), String::from_str(a))),
        _ => None,
    }
}

/// The sender of an outgoing message: an explicit sender; else, when a
/// session id is supplied, the role registered for `(session id, agent id)`
/// (none when the agent id is omitted or nothing is registered — never the
/// shared fallback); else the process's active role.
pub open spec fn resolve_sender_spec(
    explicit: Option<Seq<char>>,
    session_id: Option<Seq<char>>,
    agent_id: Option<Seq<char>>,
    registered_role: Option<Seq<char>>,
    active_role_fallback: Option<Seq<char>>,
) -> Option<Seq<char>> {
    match explicit {
        Some(s) => Some(s),
        None => match session_id {
            Some(_) => match agent_id {
                Some(_) => registered_role,
                None => None,
            },
            None => active_role_fallback,
        },
    }
}

/// Resolves the sender attribution of an outgoing message; `registered_role`
/// is the role stored for the row `sender_lookup` names.
pub fn resolve_sender(
    explicit: Option<String>,
    claude_session_id: Option<&str>,
    agent_id: Option<&str>,
    registered_role: Option<String>,
    active_role_fallback: Option<String>,
) -> (r: Option<String>)
    ensures
        opt_string(r) == resolve_sender_spec(
            opt_string(explicit),
            opt_str(claude_session_id),
            opt_str(agent_id),
            opt_string(registered_role),
            opt_string(active_role_fallback),
        ),
{
    if let Some(s) = explicit {
        return Some(s);
    }
    if claude_session_id.is_some() {
        if agent_id.is_none() {
            return None;
        }
        return registered_role;
    }
    active_role_fallback
}

/// Sender attribution never guesses: an explicit sender always wins; with a
/// session id in effect, an omitted agent id or an unregistered identity
/// gives no sender, never the process-wide fallback; only without a session
/// id does the fallback apply.
pub proof fn law_sender_attribution(
    explicit: Option<Seq<char>>,
    session_id: Option<Seq<char>>,
    agent_id: Option<Seq<char>>,
    registered_role: Option<Seq<char>>,
    fallback: Option<Seq<char>>,
)
    ensures
        explicit is Some ==> resolve_sender_spec(explicit, session_id, agent_id, registered_role, fallback)
            == explicit,
        explicit is None && session_id is Some && (agent_id is None || registered_role is None)
            ==> resolve_sender_spec(explicit, session_id, agent_id, registered_role, fallback) is None,
        explicit is None && session_id is None ==> resolve_sender_spec(
            explicit,
            session_id,
            agent_id,
            registered_role,
            fallback,
        ) == fallback,
{
}

// ── messaging tool results ───────────────────────────────

/// The session id in effect: the non-empty parameter, else the server's own.
pub open spec fn effective_session_spec(param: Option<Seq<char>>, env: Option<Seq<char>>) -> Option<Seq<char>> {
    match param {
        Some(p) if p.len() > 0 => Some(p),
        _ => env,
    }
}

pub fn effective_session_id(param: Option<String>, env: Option<String>) -> (r: Option<String>)
    ensures
        opt_string(r) == effective_session_spec(opt_string(param), opt_string(env)),
{
    match param {
        Some(p) => {
            if p.as_str().is_empty() {
                env
            } else {
                Some(p)
            }
        },
        None => env,
    }
}

/// `workslate_register`'s checks: a session id must be in effect and the
/// agent id must be given (possibly empty); yields the `(session, agent)` identity.
/// `host` names the agent host whose environment supplies the session id.
pub fn register_identity(session: Option<String>, agent_id: Option<String>, host: &str) -> (r: Result<(String, String), String>)
    ensures
        match r {
            Ok((s, a)) => session == Some(s) && agent_id == Some(a),
            Err(m) => (session is None && m@ == "No session id: pass session_id (the value from the [workslate] SessionStart/SubagentStart hint) or run under "@ + host@ + "."@) || (session is Some && agent_id is None && m@ == "workslate_register: agent_id is required — pass it explicitly. The leader \
                 and all teammates share one session_id, so an omitted agent_id defaults to \
                 the main session's row (empty agent_id) and a teammate would overwrite the \
                 leader's role. The leader passes an empty agent_id (its own identity); \
                 teammates pass the agent_id from their SubagentStart hint."@),
        },
{
    let sid = match session {
        Some(s) => s,
        None => {
            let mut m = String::from_str(
                "No session id: pass session_id (the value from the [workslate] SessionStart/SubagentStart hint) or run under ",
            );
            m.append(host);
            m.append(".");
            return Err(m);
        },
    };
    match agent_id {
        Some(a) => Ok((sid, a)),
        None => Err(String::from_str("workslate_register: agent_id is required — pass it explicitly. The leader \
                 and all teammates share one session_id, so an omitted agent_id defaults to \
                 the main session's row (empty agent_id) and a teammate would overwrite the \
                 leader's role. The leader passes an empty agent_id (its own identity); \
                 teammates pass the agent_id from their SubagentStart hint.")),
    }
}

pub open spec fn registered_text(role: Seq<char>, session: Seq<char>, agent_id: Seq<char>) -> Seq<char> {
    "Registered as '"@ + role + "' (session id: "@ + session + ", agent_id: "@ + (if agent_id.len() == 0 {
        "<main>"@
    } else {
        agent_id
    }) + ") — the inbox doorbell is armed; unread messages will be announced before your tool calls."@
}

pub fn registered_message(role: &str, session: &str, agent_id: &str) -> (r: String)
    ensures
        r@ == registered_text(role@, session@, agent_id@),
{
    let mut r = String::from_str("Registered as '");
    r.append(role);
    r.append("' (session id: ");
    r.append(session);
    r.append(", agent_id: ");
    r.append(if agent_id.is_empty() { "<main>" } else { agent_id });
    r.append(") — the inbox doorbell is armed; unread messages will be announced before your tool calls.");
    r
}

/// `workslate_msg_send`'s checks: a session id (the message scope) must be in
/// effect, and the agent id must be given unless an explicit sender is.
pub fn msg_send_scope(session: Option<String>, agent_id: &Option<String>, sender: &Option<String>) -> (r: Result<String, String>)
    ensures
        match r {
            Ok(s) => session == Some(s) && (agent_id is Some || sender is Some),
            Err(m) => (session is None && m@ == "No session id: pass session_id (the value from the [workslate] hint) so the \
                 message lands in this session's scope."@) || (session is Some && agent_id is None && sender is None && m@ == "workslate_msg_send: agent_id was omitted. The leader and all teammates \
                 share one session_id, so agent_id is what attributes the sender — omitting \
                 it would mis-attribute this message as sent by the leader. Pass agent_id \
                 explicitly: the leader passes an empty agent_id (the main session), \
                 teammates pass the agent_id from their SubagentStart hint (or pass an \
                 explicit `sender`)."@),
        },
{
    let scope = match session {
        Some(s) => s,
        None => return Err(String::from_str("No session id: pass session_id (the value from the [workslate] hint) so the \
                 message lands in this session's scope.")),
    };
    if agent_id.is_none() && sender.is_none() {
        return Err(String::from_str("workslate_msg_send: agent_id was omitted. The leader and all teammates \
                 share one session_id, so agent_id is what attributes the sender — omitting \
                 it would mis-attribute this message as sent by the leader. Pass agent_id \
                 explicitly: the leader passes an empty agent_id (the main session), \
                 teammates pass the agent_id from their SubagentStart hint (or pass an \
                 explicit `sender`)."));
    }
    Ok(scope)
}

pub fn msg_sent_message(recipient: &str, subject: &str) -> (r: String)
    ensures
        r@ == "Message sent to '"@ + recipient@ + "': "@ + subject@,
{
    let mut r = String::from_str("Message sent to '");
    r.append(recipient);
    r.append("': ");
    r.append(subject);
    r
}

/// `workslate_inbox_read`'s check: the message scope.
pub fn inbox_scope(session: Option<String>) -> (r: Result<String, String>)
    ensures
        match r {
            Ok(s) => session == Some(s),
            Err(m) => session is None && m@ == "No session id: pass session_id (the value from the [workslate] hint) to \
                 select this session's message scope."@,
        },
{
    match session {
        Some(s) => Ok(s),
        None => Err(String::from_str("No session id: pass session_id (the value from the [workslate] hint) to \
                 select this session's message scope.")),
    }
}

/// An unread message as read back: id, sender, subject, body, urgent flag,
/// creation time.
pub type InboxRow = (i64, Option<String>, String, String, i64, String);

/// `x` inserted after every element whose id is not greater (keeps ties in
/// arrival order).
pub open spec fn insert_by_id(s: Seq<InboxRow>, x: InboxRow) -> Seq<InboxRow>
    decreases s.len(),
{
    if s.len() == 0 {
        seq![x]
    } else if s[0].0 > x.0 {
        seq![x] + s
    } else {
        seq![s[0]] + insert_by_id(s.drop_first(), x)
    }
}

/// `s` stably sorted by id.
pub open spec fn sort_by_id(s: Seq<InboxRow>) -> Seq<InboxRow>
    decreases s.len(),
{
    if s.len() == 0 {
        s
    } else {
        insert_by_id(sort_by_id(s.drop_last()), s.last())
    }
}

proof fn lemma_insert_by_id_at(s: Seq<InboxRow>, x: InboxRow, k: int)
    requires
        0 <= k <= s.len(),
        forall|j: int| 0 <= j < k ==> (#[trigger] s[j]).0 <= x.0,
        k == s.len() || s[k].0 > x.0,
    ensures
        insert_by_id(s, x) == s.take(k) + seq![x] + s.skip(k),
    decreases s.len(),
{
    if s.len() == 0 {
        assert(s.take(k) + seq![x] + s.skip(k) =~= seq![x]);
    } else if k == 0 {
        assert(s.take(0) + seq![x] + s.skip(0) =~= seq![x] + s);
    } else {
        assert forall|j: int| 0 <= j < k - 1 implies (#[trigger] s.drop_first()[j]).0 <= x.0 by {
            assert(s.drop_first()[j] == s[j + 1]);
        }
        if k < s.len() {
            assert(s.drop_first()[k - 1] == s[k]);
        }
        lemma_insert_by_id_at(s.drop_first(), x, k - 1);
        assert(seq![s[0]] + (s.drop_first().take(k - 1) + seq![x] + s.drop_first().skip(k - 1))
            =~= s.take(k) + seq![x] + s.skip(k));
    }
}

/// Sorts unread messages by id (stable).
pub fn sort_inbox(msgs: Vec<InboxRow>) -> (r: Vec<InboxRow>)
    ensures
        r@ == sort_by_id(msgs@),
{
    let ghost orig = msgs@;
    let total = msgs.len();
    let mut rest = msgs;
    let mut r: Vec<InboxRow> = Vec::new();
    let mut i: usize = 0;
    while rest.len() > 0
        invariant
            i + rest@.len() == orig.len(),
            orig.len() == total,
            rest@ == orig.skip(i as int),
            r@ == sort_by_id(orig.take(i as int)),
        decreases rest@.len(),
    {
        let x = rest.remove(0);
        proof {
            assert(x == orig[i as int]);
            assert(orig.take(i + 1).drop_last() =~= orig.take(i as int));
            assert(rest@ =~= orig.skip(i + 1));
        }
        let mut k: usize = 0;
        while k < r.len() && r[k].0 <= x.0
            invariant
                k <= r@.len(),
                forall|j: int| 0 <= j < k ==> (#[trigger] r@[j]).0 <= x.0,
            decreases r@.len() - k,
        {
            k += 1;
        }
        proof {
            lemma_insert_by_id_at(r@, x, k as int);
        }
        let ghost before = r@;
        r.insert(k, x);
        assert(r@ =~= before.take(k as int) + seq![x] + before.skip(k as int));
        i += 1;
    }
    assert(orig.take(i as int) =~= orig);
    r
}

pub open spec fn inbox_entry_text(m: InboxRow) -> Seq<char> {
    "\n"@ + (if m.4 != 0 { "🚨 "@ } else { Seq::empty() }) + "["@ + m.2@ + "]  from "@ + match m.1 {
        Some(s) => s@,
        None => "unknown"@,
    } + "  ("@ + m.5@ + ")\n"@ + m.3@ + "\n"@
}

pub open spec fn inbox_entries_text(ms: Seq<InboxRow>) -> Seq<char>
    decreases ms.len(),
{
    if ms.len() == 0 {
        Seq::empty()
    } else {
        inbox_entries_text(ms.drop_last()) + inbox_entry_text(ms.last())
    }
}

/// The inbox listing for `role`: each message, oldest first, with its urgent
/// flag, subject, sender (or "unknown"), time and body.
pub open spec fn inbox_text(role: Seq<char>, msgs: Seq<InboxRow>) -> Seq<char> {
    let sorted = sort_by_id(msgs);
    if msgs.len() == 0 {
        "No unread messages for '"@ + role + "'"@
    } else {
        dec(msgs.len()) + " unread message(s) for '"@ + role + "':\n"@ + inbox_entries_text(sorted)
    }
}

proof fn lemma_insert_by_id_len(s: Seq<InboxRow>, x: InboxRow)
    ensures
        insert_by_id(s, x).len() == s.len() + 1,
    decreases s.len(),
{
    if s.len() > 0 && s[0].0 <= x.0 {
        lemma_insert_by_id_len(s.drop_first(), x);
    }
}

proof fn lemma_sort_by_id_len(s: Seq<InboxRow>)
    ensures
        sort_by_id(s).len() == s.len(),
    decreases s.len(),
{
    if s.len() > 0 {
        lemma_sort_by_id_len(s.drop_last());
        lemma_insert_by_id_len(sort_by_id(s.drop_last()), s.last());
    }
}

fn inbox_entry_string(m: &InboxRow) -> (r: String)
    ensures
        r@ == inbox_entry_text(*m),
{
    let mut out = String::from_str("\n");
    if m.4 != 0 {
        out.append("🚨 ");
    }
    out.append("[");
    out.append(m.2.as_str());
    out.append("]  from ");
    match &m.1 {
        Some(s) => out.append(s.as_str()),
        None => out.append("unknown"),
    }
    out.append("  (");
    out.append(m.5.as_str());
    out.append(")\n");
    out.append(m.3.as_str());
    out.append("\n");
    out
}

/// The text `workslate_inbox_read` returns for the messages it marked read.
pub fn inbox_message(role: &str, msgs: Vec<InboxRow>) -> (r: String)
    ensures
        r@ == inbox_text(role@, msgs@),
{
    let ghost orig = msgs@;
    if msgs.len() == 0 {
        let mut r = String::from_str("No unread messages for '");
        r.append(role);
        r.append("'");
        return r;
    }
    let n = msgs.len();
    let sorted = sort_inbox(msgs);
    proof {
        lemma_sort_by_id_len(orig);
    }
    let mut out = String::new();
    append_dec(&mut out, n as u64);
    out.append(" unread message(s) for '");
    out.append(role);
    out.append("':\n");
    let ghost head = out@;
    let mut i: usize = 0;
    while i < sorted.len()
        invariant
            i <= sorted@.len(),
            out@ == head + inbox_entries_text(sorted@.take(i as int)),
        decreases sorted@.len() - i,
    {
        out.append(inbox_entry_string(&sorted[i]).as_str());
        proof {
            assert(sorted@.take(i + 1).drop_last() =~= sorted@.take(i as int));
            assert(sorted@.take(i + 1).last() == sorted@[i as int]);
        }
        i += 1;
    }
    assert(sorted@.take(i as int) =~= sorted@);
    out
}

} // verus!
