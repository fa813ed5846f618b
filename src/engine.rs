//! The decisions of the protocol engine that owns a modem connection: it
//! queues commands, sends one at a time, collects the reply lines of the
//! command in flight, and tells unsolicited lines apart by the names the
//! command expects. The caller performs the I/O and feeds the engine.
use vstd::prelude::*;
use crate::at::{AtCommand, AtResponse, AtResponsePacket, AtResultCode, CodeModel, ResponseModel, response_models, spec_expected, str_eq, strings_view};

verus! {

/// The ticket of the echo-off command that the engine sends first; its
/// reply is for nobody.
pub const ECHO_OFF_ID: u64 = 0;

/// A queued command, with its ticket and expected information responses.
pub struct ModemRequest {
    pub id: u64,
    pub command: AtCommand,
    pub expected: Vec<String>,
}

/// The command in flight and the reply lines collected for it so far.
pub struct ActiveRequest {
    pub id: u64,
    pub expected: Vec<String>,
    pub responses: Vec<AtResponse>,
}

/// The reply to a finished command, for the holder of its ticket.
pub struct Completion {
    pub id: u64,
    pub packet: AtResponsePacket,
}

/// What the engine decided on some reply lines: lines for the unsolicited
/// sink, in order, and the finished command, if any.
pub struct EngineStep {
    pub urcs: Vec<AtResponse>,
    pub completed: Option<Completion>,
}

/// The state of a modem connection.
pub struct ModemEngine {
    pub queue: Vec<ModemRequest>,
    pub active: Option<ActiveRequest>,
    pub fresh: bool,
    pub next_id: u64,
}

/// `r` is an information response that a command expecting `ex` asked for.
pub open spec fn expects(ex: Seq<Seq<char>>, r: AtResponse) -> bool {
    r matches AtResponse::InformationResponse { param, .. } && ex.contains(param@)
}

/// `r` is an information response that a command expecting `ex` did not ask for.
pub open spec fn unsolicited(ex: Seq<Seq<char>>, r: AtResponse) -> bool {
    r is InformationResponse && !expects(ex, r)
}

/// The lines of `rs` that go to the command: expected information responses
/// and unknown lines.
pub open spec fn kept_models(rs: Seq<AtResponse>, ex: Seq<Seq<char>>) -> Seq<ResponseModel>
    decreases rs.len(),
{
    if rs.len() == 0 {
        Seq::empty()
    } else {
        kept_models(rs.drop_last(), ex) + if !(rs.last() is ResultCode) && !unsolicited(ex, rs.last()) {
            seq![rs.last().model()]
        } else {
            Seq::empty()
        }
    }
}

/// The lines of `rs` that go to the unsolicited sink.
pub open spec fn urc_models(rs: Seq<AtResponse>, ex: Seq<Seq<char>>) -> Seq<ResponseModel>
    decreases rs.len(),
{
    if rs.len() == 0 {
        Seq::empty()
    } else {
        urc_models(rs.drop_last(), ex) + if unsolicited(ex, rs.last()) {
            seq![rs.last().model()]
        } else {
            Seq::empty()
        }
    }
}

/// The last result code among `rs`.
pub open spec fn last_code(rs: Seq<AtResponse>) -> Option<CodeModel>
    decreases rs.len(),
{
    if rs.len() == 0 {
        None
    } else {
        match rs.last() {
            AtResponse::ResultCode(c) => Some(c.model()),
            _ => last_code(rs.drop_last()),
        }
    }
}

pub open spec fn queue_ids(q: Seq<ModemRequest>) -> Seq<u64> {
    Seq::new(q.len(), |i: int| q[i].id)
}

impl ModemEngine {
    /// Tickets rise along the queue, the command in flight holds a smaller
    /// one than any queued, and the next ticket is larger than all.
    pub open spec fn wf(self) -> bool {
        &&& forall|i: int, j: int| 0 <= i < j < self.queue@.len() ==> self.queue@[i].id < self.queue@[j].id
        &&& forall|i: int| 0 <= i < self.queue@.len() ==> #[trigger] self.queue@[i].id < self.next_id
        &&& self.active matches Some(a) ==> a.id < self.next_id && forall|i: int|
            0 <= i < self.queue@.len() ==> a.id < #[trigger] self.queue@[i].id
        &&& self.next_id > ECHO_OFF_ID
        &&& self.fresh ==> self.active is None && forall|i: int| 0 <= i < self.queue@.len() ==> #[trigger] self.queue@[i].id
            > ECHO_OFF_ID
    }

    /// A connection on which nothing was sent yet.
    pub fn new() -> (r: ModemEngine)
        ensures
            r.wf(),
            r.queue@.len() == 0,
            r.active is None,
            r.fresh,
    {
        ModemEngine { queue: Vec::new(), active: None, fresh: true, next_id: 1 }
    }

    /// Queues a command; returns its ticket, larger than every earlier one.
    pub fn submit(&mut self, command: AtCommand) -> (id: u64)
        requires
            old(self).wf(),
            old(self).next_id < u64::MAX,
        ensures
            final(self).wf(),
            id == old(self).next_id,
            final(self).next_id == id + 1,
            queue_ids(final(self).queue@) == queue_ids(old(self).queue@).push(id),
            final(self).queue@.drop_last() == old(self).queue@,
            final(self).queue@.last().command == command,
            strings_view(final(self).queue@.last().expected@) == spec_expected(command),
            final(self).active == old(self).active,
            final(self).fresh == old(self).fresh,
    {
        let id = self.next_id;
        let expected = command.expected();
        self.queue.push(ModemRequest { id, command, expected });
        self.next_id = id + 1;
        assert(queue_ids(self.queue@) =~= queue_ids(old(self).queue@).push(id));
        assert(self.queue@.drop_last() =~= old(self).queue@);
        id
    }

    /// The next command to write, if none is in flight: on the first call
    /// the echo-off command `ATE0`, then the oldest queued command.
    pub fn next_command(&mut self) -> (r: Option<AtCommand>)
        requires
            old(self).wf(),
        ensures
            final(self).wf(),
            !final(self).fresh,
            final(self).next_id == old(self).next_id,
            old(self).active is Some ==> r is None && final(self).active == old(self).active && final(self).queue@
                == old(self).queue@,
            old(self).active is None && !old(self).fresh ==> {
                &&& old(self).queue@.len() == 0 ==> r is None && final(self).active is None && final(self).queue@.len()
                    == 0
                &&& old(self).queue@.len() > 0 ==> r == Some(old(self).queue@[0].command) && (final(self).active matches Some(
                    a,
                ) && a.id == old(self).queue@[0].id && a.responses@.len() == 0 && a.expected
                    == old(self).queue@[0].expected) && final(self).queue@ == old(self).queue@.drop_first()
            },
            old(self).fresh ==> (final(self).active matches Some(a) && a.id == ECHO_OFF_ID && a.responses@.len() == 0
                && a.expected@.len() == 0) && final(self).queue@ == old(self).queue@,
            old(self).fresh ==> (r matches Some(AtCommand::Basic { command, number }) && command@ == "E"@ && number
                == Some(0usize)),
    {
        if self.fresh {
            self.fresh = false;
            let echo = AtCommand::Basic { command: "E".to_owned(), number: Some(0) };
            self.queue.insert(0, ModemRequest { id: ECHO_OFF_ID, command: echo, expected: Vec::new() });
        }
        if self.active.is_none() && self.queue.len() > 0 {
            let req = self.queue.remove(0);
            self.active = Some(ActiveRequest { id: req.id, expected: req.expected, responses: Vec::new() });
            proof {
                if old(self).fresh {
                    assert(self.queue@ =~= old(self).queue@);
                } else {
                    assert(self.queue@ =~= old(self).queue@.drop_first());
                }
            }
            return Some(req.command);
        }
        None
    }
}

fn expects_param(expected: &Vec<String>, param: &String) -> (r: bool)
    ensures
        r == strings_view(expected@).contains(param@),
{
    let mut i: usize = 0;
    while i < expected.len()
        invariant
            i <= expected@.len(),
            forall|j: int| 0 <= j < i ==> expected@[j]@ != param@,
        decreases expected@.len() - i,
    {
        if str_eq(expected[i].as_str(), param.as_str()) {
            assert(strings_view(expected@)[i as int] == param@);
            return true;
        }
        i += 1;
    }
    proof {
        if strings_view(expected@).contains(param@) {
            let j = choose|j: int| 0 <= j < expected@.len() && strings_view(expected@)[j] == param@;
            assert(expected@[j]@ == param@);
        }
    }
    false
}

/// Lines kept for a command never include an information response that it
/// did not expect: those go to the unsolicited sink, each one of them.
pub proof fn lemma_urc_isolation(rs: Seq<AtResponse>, ex: Seq<Seq<char>>)
    ensures
        forall|i: int| 0 <= i < kept_models(rs, ex).len() ==> (#[trigger] kept_models(rs, ex)[i] matches ResponseModel::InformationResponse(p, _) ==> ex.contains(p)),
        forall|i: int| 0 <= i < rs.len() && unsolicited(ex, #[trigger] rs[i]) ==> urc_models(rs, ex).contains(rs[i].model()),
    decreases rs.len(),
{
    if rs.len() > 0 {
        let init = rs.drop_last();
        lemma_urc_isolation(init, ex);
        let k = kept_models(rs, ex);
        assert forall|i: int| 0 <= i < k.len() implies (#[trigger] k[i] matches ResponseModel::InformationResponse(p, _) ==> ex.contains(p)) by {
            if i < kept_models(init, ex).len() {
                assert(k[i] == kept_models(init, ex)[i]);
            } else {
                assert(k[i] == rs.last().model());
            }
        }
        assert forall|i: int| 0 <= i < rs.len() && unsolicited(ex, #[trigger] rs[i]) implies urc_models(rs, ex).contains(rs[i].model()) by {
            let u = urc_models(rs, ex);
            if i < rs.len() - 1 {
                assert(init[i] == rs[i]);
                let w = choose|w: int| 0 <= w < urc_models(init, ex).len() && urc_models(init, ex)[w] == init[i].model();
                assert(u[w] == urc_models(init, ex)[w]);
            } else {
                assert(u[u.len() - 1] == rs.last().model());
            }
        }
    }
}

proof fn lemma_last_code_concat(a: Seq<AtResponse>, b: Seq<AtResponse>)
    ensures
        last_code(a + b) == (if last_code(b) is Some { last_code(b) } else { last_code(a) }),
    decreases b.len(),
{
    if b.len() == 0 {
        assert(a + b =~= a);
    } else {
        lemma_last_code_concat(a, b.drop_last());
        assert((a + b).drop_last() =~= a + b.drop_last());
    }
}

impl ModemEngine {
    /// Handles reply lines. With no command in flight every line is
    /// unsolicited. Otherwise the lines join those collected for the command;
    /// once a result code has come, the command is finished: its packet
    /// holds the expected information responses and unknown lines, its
    /// status is the last result code, and the information responses it did
    /// not expect go to the unsolicited sink.
    pub fn on_responses(&mut self, lines: Vec<AtResponse>) -> (r: EngineStep)
        requires
            old(self).wf(),
        ensures
            final(self).wf(),
            final(self).next_id == old(self).next_id,
            final(self).fresh == old(self).fresh,
            final(self).queue@ == old(self).queue@,
            old(self).active is None ==> response_models(r.urcs@) == response_models(lines@) && r.completed is None
                && final(self).active is None,
            old(self).active is Some && last_code(lines@) is None ==> {
                let a = old(self).active->0;
                &&& r.urcs@.len() == 0
                &&& r.completed is None
                &&& final(self).active is Some
                &&& final(self).active->0.id == a.id
                &&& final(self).active->0.expected == a.expected
                &&& response_models(final(self).active->0.responses@) == response_models(a.responses@ + lines@)
            },
            old(self).active is Some && last_code(lines@) is Some ==> {
                let a = old(self).active->0;
                let all = a.responses@ + lines@;
                let ex = strings_view(a.expected@);
                &&& final(self).active is None
                &&& response_models(r.urcs@) == urc_models(all, ex)
                &&& r.completed is Some
                &&& r.completed->0.id == a.id
                &&& response_models(r.completed->0.packet.responses@) == kept_models(all, ex)
                &&& Some(r.completed->0.packet.status.model()) == last_code(all)
                &&& forall|i: int| 0 <= i < final(self).queue@.len() ==> a.id < #[trigger] final(self).queue@[i].id
            },
    {
        let mut lines = lines;
        match self.active.take() {
            None => {
                return EngineStep { urcs: lines, completed: None };
            },
            Some(mut a) => {
                let mut finished = false;
                let mut k: usize = 0;
                while k < lines.len()
                    invariant
                        k <= lines@.len(),
                        finished == (last_code(lines@.subrange(0, k as int)) is Some),
                    decreases lines@.len() - k,
                {
                    assert(lines@.subrange(0, k + 1).drop_last() == lines@.subrange(0, k as int));
                    if lines[k].is_result_code() {
                        finished = true;
                    }
                    k += 1;
                }
                assert(lines@.subrange(0, lines@.len() as int) == lines@);
                let ghost before = a.responses@;
                let ghost added = lines@;
                a.responses.append(&mut lines);
                assert(a.responses@ == before + added);
                if !finished {
                    self.active = Some(a);
                    return EngineStep { urcs: Vec::new(), completed: None };
                }
                let ghost all = a.responses@;
                let ghost ex = strings_view(a.expected@);
                proof {
                    lemma_last_code_concat(before, added);
                }
                let mut kept: Vec<AtResponse> = Vec::new();
                let mut urcs: Vec<AtResponse> = Vec::new();
                let mut status: Option<AtResultCode> = None;
                let mut rest = a.responses;
                let ghost mut i: int = 0;
                assert(all.subrange(0, 0) =~= Seq::<AtResponse>::empty());
                while rest.len() > 0
                    invariant
                        0 <= i <= all.len(),
                        rest@ == all.subrange(i, all.len() as int),
                        ex == strings_view(a.expected@),
                        response_models(kept@) == kept_models(all.subrange(0, i), ex),
                        response_models(urcs@) == urc_models(all.subrange(0, i), ex),
                        match status {
                            Some(c) => last_code(all.subrange(0, i)) == Some(c.model()),
                            None => last_code(all.subrange(0, i)) is None,
                        },
                    decreases rest@.len(),
                {
                    let x = rest.remove(0);
                    proof {
                        assert(all[i] == x);
                        assert(all.subrange(0, i + 1).drop_last() == all.subrange(0, i));
                        assert(all.subrange(0, i + 1).last() == x);
                        assert(rest@ =~= all.subrange(i + 1, all.len() as int));
                    }
                    let ghost km = response_models(kept@);
                    let ghost um = response_models(urcs@);
                    match x {
                        AtResponse::InformationResponse { param, response } => {
                            if expects_param(&a.expected, &param) {
                                kept.push(AtResponse::InformationResponse { param, response });
                                assert(response_models(kept@) =~= km + seq![all[i].model()]);
                            } else {
                                urcs.push(AtResponse::InformationResponse { param, response });
                                assert(response_models(urcs@) =~= um + seq![all[i].model()]);
                            }
                        },
                        AtResponse::ResultCode(c) => {
                            status = Some(c);
                        },
                        other => {
                            kept.push(other);
                            assert(response_models(kept@) =~= km + seq![all[i].model()]);
                        },
                    }
                    proof {
                        assert(response_models(kept@) =~= kept_models(all.subrange(0, i + 1), ex));
                        assert(response_models(urcs@) =~= urc_models(all.subrange(0, i + 1), ex));
                        i = i + 1;
                    }
                }
                assert(all.subrange(0, i) == all);
                let status = match status {
                    Some(c) => c,
                    None => AtResultCode::Error,
                };
                EngineStep {
                    urcs,
                    completed: Some(Completion { id: a.id, packet: AtResponsePacket { responses: kept, status } }),
                }
            },
        }
    }
}

/// Commands finish in the order they were submitted: tickets rise along the
/// queue, the command in flight holds a smaller ticket than any queued one,
/// and a new command gets a larger ticket than all of them.
pub proof fn lemma_engine_order(e: ModemEngine)
    requires
        e.wf(),
    ensures
        forall|i: int, j: int| 0 <= i < j < e.queue@.len() ==> e.queue@[i].id < e.queue@[j].id,
        e.active is Some ==> forall|i: int| 0 <= i < e.queue@.len() ==> e.active->0.id < #[trigger] e.queue@[i].id,
        forall|i: int| 0 <= i < e.queue@.len() ==> #[trigger] e.queue@[i].id < e.next_id,
{
}

} // verus!
