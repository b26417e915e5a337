//! Work that is put off: operations of the audio thread, and commands to the SIP side.

use crate::sip::events::InvState;
use crate::sip::types::{CallId, ConfPort, SipCommand};
use crate::text::{chars_of, decimal, decimal_text, join2, join3, push_char, signed_decimal};
use vstd::prelude::*;
use vstd::string::*;

verus! {

/// An operation that only the audio thread may carry out.
#[derive(Debug)]
pub enum PendingPjsuaOp {
    /// Play samples to a call.
    PlayDirect { call_id: CallId, samples: Vec<i16> },
    /// Stop what is played to a call.
    StopDirect { call_id: CallId },
    /// Stream a file to a call.
    StartStreaming { call_id: CallId, path: String, hangup_on_complete: bool },
    /// Play a tone to a call until the caller hangs up.
    StartTestTone { call_id: CallId },
    /// Hang up.
    Hangup { call_id: CallId },
    /// Play samples to a call again and again.
    StartLoop { call_id: CallId, samples: Vec<i16> },
    /// Wire the fax port of a call both ways. Who asked is told under the number.
    ConnectFaxPort { call_id: CallId, fax_slot: ConfPort, call_conf_port: ConfPort, reply_to: u64 },
}

/// The call of an operation.
pub open spec fn op_call(op: PendingPjsuaOp) -> CallId {
    match op {
        PendingPjsuaOp::PlayDirect { call_id, .. } => call_id,
        PendingPjsuaOp::StopDirect { call_id } => call_id,
        PendingPjsuaOp::StartStreaming { call_id, .. } => call_id,
        PendingPjsuaOp::StartTestTone { call_id } => call_id,
        PendingPjsuaOp::Hangup { call_id } => call_id,
        PendingPjsuaOp::StartLoop { call_id, .. } => call_id,
        PendingPjsuaOp::ConnectFaxPort { call_id, .. } => call_id,
    }
}

impl PendingPjsuaOp {
    /// The call of the operation.
    pub fn call(&self) -> (r: CallId)
        ensures
            r == op_call(*self),
    {
        match self {
            PendingPjsuaOp::PlayDirect { call_id, .. } => *call_id,
            PendingPjsuaOp::StopDirect { call_id } => *call_id,
            PendingPjsuaOp::StartStreaming { call_id, .. } => *call_id,
            PendingPjsuaOp::StartTestTone { call_id } => *call_id,
            PendingPjsuaOp::Hangup { call_id } => *call_id,
            PendingPjsuaOp::StartLoop { call_id, .. } => *call_id,
            PendingPjsuaOp::ConnectFaxPort { call_id, .. } => *call_id,
        }
    }
}

/// What is said of an operation, without its samples.
pub open spec fn op_text(op: PendingPjsuaOp) -> Seq<char> {
    let call = signed_decimal(op_call(op).num() as int);
    match op {
        PendingPjsuaOp::PlayDirect { samples, .. } => "PlayDirect { call_id: "@ + call
            + ", samples: "@ + decimal(samples@.len()) + " }"@,
        PendingPjsuaOp::StopDirect { .. } => "StopDirect { call_id: "@ + call + " }"@,
        PendingPjsuaOp::StartLoop { samples, .. } => "StartLoop { call_id: "@ + call
            + ", samples: "@ + decimal(samples@.len()) + " }"@,
        PendingPjsuaOp::StartStreaming { path, hangup_on_complete, .. } => "StartStreaming { call_id: "@
            + call + ", path: "@ + path@ + ", hangup_on_complete: "@ + (if hangup_on_complete {
            "true"@
        } else {
            "false"@
        }) + " }"@,
        PendingPjsuaOp::StartTestTone { .. } => "StartTestTone { call_id: "@ + call + " }"@,
        PendingPjsuaOp::Hangup { .. } => "Hangup { call_id: "@ + call + " }"@,
        PendingPjsuaOp::ConnectFaxPort { fax_slot, call_conf_port, .. } => "ConnectFaxPort { call_id: "@
            + call + ", fax_slot: ConfPort("@ + signed_decimal(fax_slot.num() as int)
            + "), call_conf_port: ConfPort("@ + signed_decimal(call_conf_port.num() as int) + ") }"@,
    }
}

/// What is said of an operation, without its samples.
pub fn describe_op(op: &PendingPjsuaOp) -> (r: String)
    ensures
        r@ == op_text(*op),
{
    let call: String = op.call().text();
    match op {
        PendingPjsuaOp::PlayDirect { samples, .. } => {
            let s: String = join3("PlayDirect { call_id: ", call.as_str(), ", samples: ");
            join3(s.as_str(), decimal_text(samples.len() as u64).as_str(), " }")
        },
        PendingPjsuaOp::StopDirect { .. } => join3(
            "StopDirect { call_id: ",
            call.as_str(),
            " }",
        ),
        PendingPjsuaOp::StartLoop { samples, .. } => {
            let s: String = join3("StartLoop { call_id: ", call.as_str(), ", samples: ");
            join3(s.as_str(), decimal_text(samples.len() as u64).as_str(), " }")
        },
        PendingPjsuaOp::StartStreaming { path, hangup_on_complete, .. } => {
            let mut s: String = join3("StartStreaming { call_id: ", call.as_str(), ", path: ");
            s = join3(s.as_str(), path.as_str(), ", hangup_on_complete: ");
            if *hangup_on_complete {
                join3(s.as_str(), "true", " }")
            } else {
                join3(s.as_str(), "false", " }")
            }
        },
        PendingPjsuaOp::StartTestTone { .. } => join3(
            "StartTestTone { call_id: ",
            call.as_str(),
            " }",
        ),
        PendingPjsuaOp::Hangup { .. } => join3("Hangup { call_id: ", call.as_str(), " }"),
        PendingPjsuaOp::ConnectFaxPort { fax_slot, call_conf_port, .. } => {
            let mut s: String = join3(
                "ConnectFaxPort { call_id: ",
                call.as_str(),
                ", fax_slot: ConfPort(",
            );
            s = join3(s.as_str(), fax_slot.text().as_str(), "), call_conf_port: ConfPort(");
            join3(s.as_str(), call_conf_port.text().as_str(), ") }")
        },
    }
}

/// What the audio thread does with an operation.
#[derive(Debug)]
pub enum OpStep {
    /// The call is dead: nothing is done. Who asked for a fax port is told that it failed.
    Skip { tell: Option<u64> },
    /// The operation is carried out, behind the end of what is played in a loop where that is
    /// stated.
    Run { op: PendingPjsuaOp, stop_loop: bool },
}

/// The operation ends what is played in a loop.
pub open spec fn ends_loop(op: PendingPjsuaOp) -> bool {
    op is PlayDirect || op is StartStreaming || op is StartTestTone || op is Hangup
}

/// What the audio thread does with an operation, given whether its call is alive.
pub fn op_step(op: PendingPjsuaOp, call_is_alive: bool) -> (r: OpStep)
    ensures
        r == (if !call_is_alive {
            OpStep::Skip {
                tell: match op {
                    PendingPjsuaOp::ConnectFaxPort { reply_to, .. } => Some(reply_to),
                    _ => None,
                },
            }
        } else {
            OpStep::Run { op, stop_loop: ends_loop(op) }
        }),
{
    if !call_is_alive {
        let tell: Option<u64> = match op {
            PendingPjsuaOp::ConnectFaxPort { reply_to, .. } => Some(reply_to),
            _ => None,
        };
        return OpStep::Skip { tell };
    }
    let stop_loop: bool = match &op {
        PendingPjsuaOp::PlayDirect { .. } => true,
        PendingPjsuaOp::StartStreaming { .. } => true,
        PendingPjsuaOp::StartTestTone { .. } => true,
        PendingPjsuaOp::Hangup { .. } => true,
        _ => false,
    };
    OpStep::Run { op, stop_loop }
}

/// The operations that wait.
pub type OpSegQueue = crossbeam_queue::SegQueue<PendingPjsuaOp>;

/// What a queue of operations holds, from the first to leave to the last.
pub uninterp spec fn held_ops(q: OpSegQueue) -> Seq<PendingPjsuaOp>;

/// `crossbeam_queue::SegQueue::new`: a queue that holds nothing.
#[verifier::external_body]
fn ops_new() -> (q: OpSegQueue)
    ensures
        held_ops(q).len() == 0,
{
    crossbeam_queue::SegQueue::new()
}

/// `crossbeam_queue::SegQueue::push`: the operation is the last to leave.
#[verifier::external_body]
fn ops_push(q: &mut OpSegQueue, op: PendingPjsuaOp)
    ensures
        held_ops(*final(q)) == held_ops(*old(q)).push(op),
{
    q.push(op);
}

/// `crossbeam_queue::SegQueue::pop`: the first operation leaves, if there is one.
#[verifier::external_body]
fn ops_pop(q: &mut OpSegQueue) -> (r: Option<PendingPjsuaOp>)
    ensures
        r is Some <==> held_ops(*old(q)).len() > 0,
        r is Some ==> r->0 == held_ops(*old(q))[0],
        held_ops(*final(q)) == (if held_ops(*old(q)).len() > 0 {
            held_ops(*old(q)).drop_first()
        } else {
            held_ops(*old(q))
        }),
{
    q.pop()
}

/// The operations that wait for the audio thread.
pub struct OpQueue {
    queue: OpSegQueue,
}

impl OpQueue {
    /// The operations, from the first to leave to the last.
    pub closed spec fn view(&self) -> Seq<PendingPjsuaOp> {
        held_ops(self.queue)
    }

    /// No operation waits.
    pub fn new() -> (r: Self)
        ensures
            r@.len() == 0,
    {
        OpQueue { queue: ops_new() }
    }

    /// Puts an operation off.
    pub fn queue_pjsua_op(&mut self, op: PendingPjsuaOp)
        ensures
            final(self)@ == old(self)@.push(op),
    {
        ops_push(&mut self.queue, op);
    }

    /// The operation that has waited longest.
    pub fn next_op(&mut self) -> (r: Option<PendingPjsuaOp>)
        ensures
            r is Some <==> old(self)@.len() > 0,
            r is Some ==> r->0 == old(self)@[0] && final(self)@ == old(self)@.drop_first(),
            r is None ==> final(self)@ == old(self)@,
    {
        ops_pop(&mut self.queue)
    }

    /// Forgets the operations that were left over, and returns how many they were.
    pub fn drain(&mut self) -> (n: u64)
        requires
            old(self)@.len() <= u64::MAX,
        ensures
            n == old(self)@.len(),
            final(self)@.len() == 0,
    {
        let mut n: u64 = 0;
        loop
            invariant
                n + self@.len() == old(self)@.len(),
                old(self)@.len() <= u64::MAX,
            decreases self@.len(),
        {
            match ops_pop(&mut self.queue) {
                Some(_) => {
                    n = n + 1;
                },
                None => {
                    return n;
                },
            }
        }
    }

    /// Plays samples to a call.
    pub fn play_audio_to_call_direct(&mut self, call_id: CallId, samples: &[i16])
        ensures
            final(self)@.len() == old(self)@.len() + 1,
            final(self)@.drop_last() == old(self)@,
            final(self)@.last() matches PendingPjsuaOp::PlayDirect { call_id: c, samples: s } && c
                == call_id && s@ == samples@,
    {
        let mut copy: Vec<i16> = Vec::new();
        copy.extend_from_slice(samples);
        proof {
            assert(copy@ =~= samples@);
        }
        let ghost before = self@;
        self.queue_pjsua_op(PendingPjsuaOp::PlayDirect { call_id, samples: copy });
        proof {
            assert(self@.drop_last() =~= before);
        }
    }

    /// Stops what is played to a call.
    pub fn stop_direct_audio_to_call(&mut self, call_id: CallId)
        ensures
            final(self)@ == old(self)@.push(PendingPjsuaOp::StopDirect { call_id }),
    {
        self.queue_pjsua_op(PendingPjsuaOp::StopDirect { call_id });
    }
}

/// Operations leave in the order in which they came.
pub proof fn law_operations_keep_their_order(q: Seq<PendingPjsuaOp>, op: PendingPjsuaOp)
    requires
        q.len() > 0,
    ensures
        q.push(op)[0] == q[0],
        q.push(op).drop_first() == q.drop_first().push(op),
{
    assert(q.push(op).drop_first() =~= q.drop_first().push(op));
}

/// What is done with a command.
#[derive(Debug)]
pub enum CommandStep {
    /// An operation is put off to the audio thread.
    Queue(PendingPjsuaOp),
    /// What is played in a loop ends, the call is forgotten and hung up.
    Hangup { call_id: CallId },
    /// The call is answered with the code.
    Answer { call_id: CallId, code: u16 },
    /// What is played in a loop ends, the call is redirected and forgotten.
    Redirect { call_id: CallId, contact: String },
    /// A URI is called.
    Dial {
        tracking_id: String,
        sip_uri: String,
        caller_display_name: Option<String>,
        fork_total: usize,
    },
    /// A registration that was put off is answered.
    Respond { expires: u32, contact_uri: Option<String>, auth_ok: bool },
}

/// The step is that of the command.
pub open spec fn is_step_of(s: CommandStep, c: SipCommand) -> bool {
    match c {
        SipCommand::PlayDirectToCall { call_id, samples } => s == CommandStep::Queue(
            PendingPjsuaOp::PlayDirect { call_id, samples },
        ),
        SipCommand::StopDirectToCall { call_id } => s == CommandStep::Queue(
            PendingPjsuaOp::StopDirect { call_id },
        ),
        SipCommand::StartConnectingLoop { call_id, samples } => s == CommandStep::Queue(
            PendingPjsuaOp::StartLoop { call_id, samples },
        ),
        SipCommand::Hangup { call_id } => s == (CommandStep::Hangup { call_id }),
        SipCommand::Answer { call_id } => s == (CommandStep::Answer { call_id, code: 200 }),
        SipCommand::Send183 { call_id } => s == (CommandStep::Answer { call_id, code: 183 }),
        SipCommand::StartStreaming { call_id, path } => s == CommandStep::Queue(
            PendingPjsuaOp::StartStreaming { call_id, path, hangup_on_complete: true },
        ),
        SipCommand::StartTestTone { call_id } => s == CommandStep::Queue(
            PendingPjsuaOp::StartTestTone { call_id },
        ),
        SipCommand::Redirect { call_id, domain, extension } => s matches CommandStep::Redirect {
            call_id: d,
            contact,
        } && d == call_id && contact@ == redirect_contact(extension@, domain@),
        SipCommand::MakeOutboundCall { tracking_id, sip_uri, caller_display_name, fork_total } => s
            == (CommandStep::Dial { tracking_id, sip_uri, caller_display_name, fork_total }),
        SipCommand::RespondRegister { expires, contact_uri, auth_ok } => s == (
        CommandStep::Respond { expires, contact_uri, auth_ok }),
    }
}

/// The contact of a redirected call.
pub open spec fn redirect_contact(extension: Seq<char>, domain: Seq<char>) -> Seq<char> {
    "sip:"@ + extension + "@"@ + domain
}

/// What is done with a command.
pub fn process_sip_command(cmd: SipCommand) -> (r: CommandStep)
    ensures
        is_step_of(r, cmd),
{
    match cmd {
        SipCommand::PlayDirectToCall { call_id, samples } => CommandStep::Queue(
            PendingPjsuaOp::PlayDirect { call_id, samples },
        ),
        SipCommand::StopDirectToCall { call_id } => CommandStep::Queue(
            PendingPjsuaOp::StopDirect { call_id },
        ),
        SipCommand::StartConnectingLoop { call_id, samples } => CommandStep::Queue(
            PendingPjsuaOp::StartLoop { call_id, samples },
        ),
        SipCommand::Hangup { call_id } => CommandStep::Hangup { call_id },
        SipCommand::Answer { call_id } => CommandStep::Answer { call_id, code: 200 },
        SipCommand::Send183 { call_id } => CommandStep::Answer { call_id, code: 183 },
        SipCommand::StartStreaming { call_id, path } => CommandStep::Queue(
            PendingPjsuaOp::StartStreaming { call_id, path, hangup_on_complete: true },
        ),
        SipCommand::StartTestTone { call_id } => CommandStep::Queue(
            PendingPjsuaOp::StartTestTone { call_id },
        ),
        SipCommand::Redirect { call_id, domain, extension } => {
            let head: String = join3("sip:", extension.as_str(), "@");
            CommandStep::Redirect { call_id, contact: join2(head.as_str(), domain.as_str()) }
        },
        SipCommand::MakeOutboundCall { tracking_id, sip_uri, caller_display_name, fork_total } => CommandStep::Dial {
            tracking_id,
            sip_uri,
            caller_display_name,
            fork_total,
        },
        SipCommand::RespondRegister { expires, contact_uri, auth_ok } => CommandStep::Respond {
            expires,
            contact_uri,
            auth_ok,
        },
    }
}

/// Whether a call can be redirected: only while no final answer was sent.
pub fn may_redirect(state: Option<InvState>) -> (r: bool)
    ensures
        r == (state == Some(InvState::Incoming) || state == Some(InvState::Early)),
{
    match state {
        Some(InvState::Incoming) => true,
        Some(InvState::Early) => true,
        _ => false,
    }
}

/// A character that a display name may hold: no control character, quote, angle bracket or
/// backslash.
pub open spec fn name_char(c: char) -> bool {
    c >= ' ' && c != '"' && c != '<' && c != '>' && c != '\\'
}

/// A display name without the characters that it may not hold, cut off behind `max` of them.
pub open spec fn sanitized(s: Seq<char>, max: nat) -> Seq<char>
    decreases s.len(),
{
    if s.len() == 0 {
        Seq::empty()
    } else {
        let before = sanitized(s.drop_last(), max);
        if name_char(s.last()) && before.len() < max {
            before.push(s.last())
        } else {
            before
        }
    }
}

/// A display name that can be put into a header.
pub fn sanitize_display_name(name: &str) -> (r: String)
    ensures
        r@ == sanitized(name@, 64),
{
    let v: Vec<char> = chars_of(name);
    let mut r: String = String::new();
    let mut n: usize = 0;
    let mut i: usize = 0;
    proof {
        assert(r@ =~= sanitized(v@.take(0), 64));
    }
    while i < v.len()
        invariant
            i <= v@.len(),
            v@ == name@,
            n == r@.len(),
            n <= 64,
            r@ == sanitized(v@.take(i as int), 64),
        decreases v@.len() - i,
    {
        let c: char = v[i];
        proof {
            assert(v@.take(i + 1).drop_last() =~= v@.take(i as int));
            assert(v@.take(i + 1).last() == c);
        }
        if c >= ' ' && c != '"' && c != '<' && c != '>' && c != '\\' && n < 64 {
            push_char(&mut r, c);
            n = n + 1;
        }
        i = i + 1;
    }
    proof {
        assert(v@.take(v@.len() as int) =~= v@);
    }
    r
}

/// The From header of an outbound call.
pub fn build_from_header(name: &str, account_uri: &str) -> (r: String)
    ensures
        r@ == "\""@ + sanitized(name@, 64) + "\" <"@ + account_uri@ + ">"@,
{
    let head: String = join3("\"", sanitize_display_name(name).as_str(), "\" <");
    join3(head.as_str(), account_uri, ">")
}

/// A display name in a header holds nothing that could end it or the header, and has at most
/// so many characters.
pub proof fn law_display_names_stay_in_their_quotes(s: Seq<char>, max: nat)
    ensures
        sanitized(s, max).len() <= max,
        sanitized(s, max).len() <= s.len(),
        forall|i: int| 0 <= i < sanitized(s, max).len() ==> name_char(#[trigger] sanitized(s, max)[i]),
    decreases s.len(),
{
    if s.len() > 0 {
        law_display_names_stay_in_their_quotes(s.drop_last(), max);
    }
}

/// A display name keeps every character that it may hold, in its place, up to so many: one character
/// more is put behind the others where it is no control character, quote, angle bracket or backslash
/// and there is room, and is left out else.
pub proof fn law_display_names_keep_what_they_may(s: Seq<char>, c: char, max: nat)
    ensures
        sanitized(Seq::empty(), max).len() == 0,
        ({
            let allowed = c as int >= 32 && c as int != 34 && c as int != 60 && c as int != 62
                && c as int != 92;
            sanitized(s.push(c), max) == (if allowed && sanitized(s, max).len() < max {
                sanitized(s, max).push(c)
            } else {
                sanitized(s, max)
            })
        }),
{
    assert(s.push(c).drop_last() =~= s);
}

/// What is played in a loop ends with what takes its place: other samples, a file, a tone, or the
/// end of the call. The end of other samples, a new loop and the port of a fax leave it alone.
pub proof fn law_what_ends_a_loop(op: PendingPjsuaOp)
    ensures
        ends_loop(op) <==> !(op is StopDirect || op is StartLoop || op is ConnectFaxPort),
{
}

/// A command keeps what it is about: what it queues is for its call and has its samples and path, an
/// answer has the code of an answer or of early media, and a redirection leads to the extension at
/// the domain.
pub proof fn law_commands_keep_what_they_are_about(s: CommandStep, c: SipCommand)
    requires
        is_step_of(s, c),
    ensures
        c is PlayDirectToCall ==> s == CommandStep::Queue(
            PendingPjsuaOp::PlayDirect {
                call_id: c->PlayDirectToCall_call_id,
                samples: c->PlayDirectToCall_samples,
            },
        ),
        c is StartConnectingLoop ==> s == CommandStep::Queue(
            PendingPjsuaOp::StartLoop {
                call_id: c->StartConnectingLoop_call_id,
                samples: c->StartConnectingLoop_samples,
            },
        ),
        c is Answer ==> s is Answer && s->Answer_call_id == c->Answer_call_id && s->code == 200,
        c is Send183 ==> s is Answer && s->Answer_call_id == c->Send183_call_id && s->code == 183,
        c is Hangup ==> s is Hangup && s->Hangup_call_id == c->Hangup_call_id,
        c is Redirect ==> s is Redirect && s->Redirect_call_id == c->Redirect_call_id,
        s is Queue ==> c is PlayDirectToCall || c is StopDirectToCall || c is StartConnectingLoop
            || c is StartStreaming || c is StartTestTone,
{
}

/// A caller who is redirected dials the extension at the domain: it is the user of the contact.
pub proof fn law_a_redirection_leads_to_its_extension(extension: Seq<char>, domain: Seq<char>)
    requires
        extension.len() > 0,
        extension[0] != '<',
        !extension.contains('@'),
        domain.len() > 0,
        domain.last() != '>',
        crate::text::behind_prefix(extension + "@"@ + domain, "sip:"@) is None,
    ensures
        crate::sip::utils::sip_user(redirect_contact(extension, domain)) == extension,
        redirect_contact(extension, domain).subrange(
            5 + extension.len() as int,
            redirect_contact(extension, domain).len() as int,
        ) == domain,
{
    reveal_strlit("sip:");
    reveal_strlit("@");
    crate::sip::utils::law_the_user_of_a_uri_is_found(extension, domain);
    let c = redirect_contact(extension, domain);
    assert(c.subrange(5 + extension.len() as int, c.len() as int) =~= domain);
}

} // verus!
