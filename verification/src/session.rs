//! The session: the phases that the server goes through, the step that each
//! phase takes, and what holds of every run of steps.

use crate::dialogue::{
    block_entries,
    capability_reply,
    command_of,
    content_response,
    error_end,
    failure_ends_with_error_status,
    offered_capabilities,
    read_block,
    read_block_consumes,
    read_client_hello,
    schedule_response,
    server_hello,
    status_block,
    CommandView,
    Request,
    RequestView,
};
use crate::error::{Error, ParseError};
use crate::ext::{flush_pkt, read_frame, text_frames};
use crate::util::{read_payload, read_payload_consumes};
use vstd::prelude::*;

verus! {

/// The phases of a session.
#[derive(Debug)]
pub enum Phase {
    /// Nothing was read yet: the client hello is expected.
    Init,
    /// The hellos were exchanged: the client's capabilities are expected.
    CapabilityNegotiation,
    /// A command block is expected.
    CommandLoop,
    /// A request was read: its content is expected.
    RequestPhase(Request),
    /// The session is over.
    Closed,
}

/// A [`Phase`] with the request's path as text.
pub enum PhaseView {
    Init,
    CapabilityNegotiation,
    CommandLoop,
    RequestPhase(RequestView),
    Closed,
}

impl View for Phase {
    type V = PhaseView;

    open spec fn view(&self) -> PhaseView {
        match self {
            Phase::Init => PhaseView::Init,
            Phase::CapabilityNegotiation => PhaseView::CapabilityNegotiation,
            Phase::CommandLoop => PhaseView::CommandLoop,
            Phase::RequestPhase(request) => PhaseView::RequestPhase(request@),
            Phase::Closed => PhaseView::Closed,
        }
    }
}

/// What the server remembers between two steps of a session.
#[derive(Debug)]
pub struct Session {
    /// What the server expects next.
    pub phase: Phase,
    /// Whether the client offered delayed delivery and was told so.
    pub delay_capability_acknowledged: bool,
    /// Whether the client has begun to collect delayed results.
    pub waiting_for_blobs: bool,
}

/// A [`Session`] with the request's path as text.
pub struct SessionView {
    pub phase: PhaseView,
    pub delay_capability_acknowledged: bool,
    pub waiting_for_blobs: bool,
}

impl View for Session {
    type V = SessionView;

    open spec fn view(&self) -> SessionView {
        SessionView {
            phase: self.phase@,
            delay_capability_acknowledged: self.delay_capability_acknowledged,
            waiting_for_blobs: self.waiting_for_blobs,
        }
    }
}

impl Session {
    /// The state in which every session begins.
    pub open spec fn initial() -> SessionView {
        SessionView {
            phase: PhaseView::Init,
            delay_capability_acknowledged: false,
            waiting_for_blobs: false,
        }
    }

    /// A session of which nothing was read yet.
    pub fn new() -> (session: Self)
        ensures
            session@ == Session::initial(),
    {
        Session {
            phase: Phase::Init,
            delay_capability_acknowledged: false,
            waiting_for_blobs: false,
        }
    }
}

/// The state after one step, or the error that ended the session, with
/// paths as text.
pub open spec fn outcome(r: Result<Session, Error>) -> Result<SessionView, Error> {
    match r {
        Ok(session) => Ok(session@),
        Err(e) => Err(e),
    }
}

/// The session as it was, in another phase.
pub open spec fn in_phase(session: SessionView, phase: PhaseView) -> SessionView {
    SessionView {
        phase,
        delay_capability_acknowledged: session.delay_capability_acknowledged,
        waiting_for_blobs: session.waiting_for_blobs,
    }
}

/// The session after a request was answered: it goes on where the processor
/// succeeded and is closed where it failed.
pub open spec fn after_request(session: SessionView, ok: bool) -> SessionView {
    in_phase(
        session,
        if ok {
            PhaseView::CommandLoop
        } else {
            PhaseView::Closed
        },
    )
}

/// The step that reads the client hello and answers it with the server
/// hello. A client hello that is refused is answered with nothing.
pub open spec fn hello_step(
    before: SessionView,
    wire: Seq<u8>,
    r: Result<SessionView, Error>,
    wire_after: Seq<u8>,
    out: Seq<u8>,
    out_after: Seq<u8>,
) -> bool {
    &&& wire_after == read_client_hello(wire).1
    &&& match read_client_hello(wire).0 {
        Err(e) => r == Err::<SessionView, Error>(e) && out_after == out,
        Ok(_) => r == Ok::<SessionView, Error>(in_phase(before, PhaseView::CapabilityNegotiation))
            && out_after == out + server_hello(),
    }
}

/// The step that reads the client's capability block and answers it with
/// the server's, for some answers of the processor on what it supports.
pub open spec fn capability_step(
    before: SessionView,
    wire: Seq<u8>,
    r: Result<SessionView, Error>,
    wire_after: Seq<u8>,
    out: Seq<u8>,
    out_after: Seq<u8>,
) -> bool {
    &&& wire_after == read_block(wire).1
    &&& match read_block(wire).0 {
        Err(e) => r == Err::<SessionView, Error>(e) && out_after == out,
        Ok(lines) => r == Ok::<SessionView, Error>(
            SessionView {
                phase: PhaseView::CommandLoop,
                delay_capability_acknowledged: offered_capabilities(lines).delay,
                waiting_for_blobs: false,
            },
        ) && exists|clean_supported: bool, smudge_supported: bool|
            out_after == out + #[trigger] capability_reply(
                offered_capabilities(lines),
                clean_supported,
                smudge_supported,
            ),
    }
}

/// The step that reads a command block. Nothing is written: a request is
/// answered once its content was read, and the switch to collecting needs
/// no answer.
pub open spec fn command_step(
    before: SessionView,
    wire: Seq<u8>,
    r: Result<SessionView, Error>,
    wire_after: Seq<u8>,
    out: Seq<u8>,
    out_after: Seq<u8>,
) -> bool {
    &&& wire_after == read_block(wire).1
    &&& out_after == out
    &&& match read_block(wire).0 {
        Err(e) => r == Err::<SessionView, Error>(e),
        Ok(lines) => match command_of(block_entries(lines)) {
            Err(e) => r == Err::<SessionView, Error>(Error::Parse(e)),
            Ok(CommandView::ListAvailableBlobs) => r == Ok::<SessionView, Error>(
                SessionView {
                    phase: PhaseView::CommandLoop,
                    delay_capability_acknowledged: before.delay_capability_acknowledged,
                    waiting_for_blobs: true,
                },
            ),
            Ok(CommandView::Process(request)) => r == Ok::<SessionView, Error>(
                in_phase(before, PhaseView::RequestPhase(request)),
            ),
        },
    }
}

/// Handing out a result that was delayed: the request must come without
/// content, and the answer is the success status and what the processor
/// produced, closed as its result asks. `r` tells whether the processor
/// succeeded.
pub open spec fn delivery(
    wire: Seq<u8>,
    r: Result<bool, Error>,
    wire_after: Seq<u8>,
    out: Seq<u8>,
    out_after: Seq<u8>,
) -> bool {
    &&& wire_after == read_frame(wire).1
    &&& match read_frame(wire).0 {
        Err(e) => r == Err::<bool, Error>(e) && out_after == out,
        Ok(Some(_)) => r == Err::<bool, Error>(Error::Parse(ParseError::DelayedBlobHasData))
            && out_after == out,
        Ok(None) => r is Ok && exists|produced: Seq<u8>|
            out_after == out + #[trigger] content_response(produced, r->Ok_0),
    }
}

/// Handing the content over for later: the answer is the delayed status, or
/// the error status where the processor refused, and no content at all.
/// `r` tells whether the processor accepted.
pub open spec fn scheduling(
    wire: Seq<u8>,
    r: Result<bool, Error>,
    wire_after: Seq<u8>,
    out: Seq<u8>,
    out_after: Seq<u8>,
) -> bool {
    &&& wire_after == read_payload(wire).1
    &&& match read_payload(wire).0 {
        Err(e) => r == Err::<bool, Error>(e) && out_after == out,
        Ok(_) => r is Ok && out_after == out + schedule_response(r->Ok_0),
    }
}

/// Transforming the content at once: the success status is written before
/// the content is read; then comes what the processor produced, closed as
/// its result asks. `r` tells whether the processor succeeded.
pub open spec fn inline_processing(
    wire: Seq<u8>,
    r: Result<bool, Error>,
    wire_after: Seq<u8>,
    out: Seq<u8>,
    out_after: Seq<u8>,
) -> bool {
    &&& wire_after == read_payload(wire).1
    &&& match read_payload(wire).0 {
        Err(e) => r == Err::<bool, Error>(e) && out_after == out + status_block(
            "status=success"@,
        ),
        Ok(_) => r is Ok && exists|produced: Seq<u8>|
            out_after == out + #[trigger] content_response(produced, r->Ok_0),
    }
}

/// The session after a request, from the result of answering it.
pub open spec fn request_outcome(before: SessionView, r: Result<bool, Error>) -> Result<
    SessionView,
    Error,
> {
    match r {
        Ok(ok) => Ok(after_request(before, ok)),
        Err(e) => Err(e),
    }
}

/// The step that answers a request. While the client collects, the request
/// hands out a delayed result. Otherwise its content is transformed at
/// once, unless the client accepts a delay and the processor asks for one.
pub open spec fn request_step(
    before: SessionView,
    request: RequestView,
    wire: Seq<u8>,
    r: Result<SessionView, Error>,
    wire_after: Seq<u8>,
    out: Seq<u8>,
    out_after: Seq<u8>,
) -> bool {
    exists|answer: Result<bool, Error>|
        #![trigger request_outcome(before, answer)]
        r == request_outcome(before, answer) && if before.waiting_for_blobs {
            delivery(wire, answer, wire_after, out, out_after)
        } else {
            ||| request.can_delay && scheduling(wire, answer, wire_after, out, out_after)
            ||| inline_processing(wire, answer, wire_after, out, out_after)
        }
}

/// One step of a session: from the state `before`, the input `wire` and the
/// output `out` to the next state or the error `r`, the input left and the
/// output. A closed session stays as it is.
pub open spec fn step(
    before: SessionView,
    wire: Seq<u8>,
    r: Result<SessionView, Error>,
    wire_after: Seq<u8>,
    out: Seq<u8>,
    out_after: Seq<u8>,
) -> bool {
    match before.phase {
        PhaseView::Init => hello_step(before, wire, r, wire_after, out, out_after),
        PhaseView::CapabilityNegotiation => capability_step(
            before,
            wire,
            r,
            wire_after,
            out,
            out_after,
        ),
        PhaseView::CommandLoop => command_step(before, wire, r, wire_after, out, out_after),
        PhaseView::RequestPhase(request) => request_step(
            before,
            request,
            wire,
            r,
            wire_after,
            out,
            out_after,
        ),
        PhaseView::Closed => r == Ok::<SessionView, Error>(before) && wire_after == wire
            && out_after == out,
    }
}

/// A step never hands input back, and a step that goes on has read some,
/// unless the session was closed before.
pub proof fn step_consumes(
    before: SessionView,
    wire: Seq<u8>,
    r: Result<SessionView, Error>,
    wire_after: Seq<u8>,
    out: Seq<u8>,
    out_after: Seq<u8>,
)
    requires
        step(before, wire, r, wire_after, out, out_after),
    ensures
        wire_after.len() <= wire.len(),
        r is Ok && !(before.phase is Closed) ==> wire_after.len() < wire.len(),
{
    read_block_consumes(wire);
    read_payload_consumes(wire);
}

/// A step only adds to the output.
pub proof fn step_extends_output(
    before: SessionView,
    wire: Seq<u8>,
    r: Result<SessionView, Error>,
    wire_after: Seq<u8>,
    out: Seq<u8>,
    out_after: Seq<u8>,
)
    requires
        step(before, wire, r, wire_after, out, out_after),
    ensures
        out.is_prefix_of(out_after),
{
    match before.phase {
        PhaseView::CapabilityNegotiation => {
            if read_block(wire).0 is Ok {
                let lines = read_block(wire).0->Ok_0;
                let (c, s) = choose|c: bool, s: bool|
                    out_after == out + #[trigger] capability_reply(
                        offered_capabilities(lines),
                        c,
                        s,
                    );
                assert(out_after.subrange(0, out.len() as int) =~= out);
            }
        },
        PhaseView::RequestPhase(request) => {
            let answer = choose|answer: Result<bool, Error>|
                #![trigger request_outcome(before, answer)]
                r == request_outcome(before, answer) && if before.waiting_for_blobs {
                    delivery(wire, answer, wire_after, out, out_after)
                } else {
                    ||| request.can_delay && scheduling(wire, answer, wire_after, out, out_after)
                    ||| inline_processing(wire, answer, wire_after, out, out_after)
                };
            if delivery(wire, answer, wire_after, out, out_after) && read_frame(wire).0
                == Ok::<Option<Seq<u8>>, Error>(None) {
                let produced = choose|produced: Seq<u8>|
                    out_after == out + #[trigger] content_response(produced, answer->Ok_0);
                assert(out_after.subrange(0, out.len() as int) =~= out);
            }
            if inline_processing(wire, answer, wire_after, out, out_after) && read_payload(
                wire,
            ).0 is Ok {
                let produced = choose|produced: Seq<u8>|
                    out_after == out + #[trigger] content_response(produced, answer->Ok_0);
                assert(out_after.subrange(0, out.len() as int) =~= out);
            }
            assert(out_after.subrange(0, out.len() as int) =~= out);
        },
        _ => {
            assert(out_after.subrange(0, out.len() as int) =~= out);
        },
    }
}

/// A point in a session: its state, the input not yet read and the output
/// written so far.
pub struct Moment {
    pub session: SessionView,
    pub wire: Seq<u8>,
    pub out: Seq<u8>,
}

/// The moment `i + 1` follows from the moment `i` by one step that went on.
pub open spec fn linked(moments: Seq<Moment>, i: int) -> bool {
    step(
        moments[i].session,
        moments[i].wire,
        Ok(moments[i + 1].session),
        moments[i + 1].wire,
        moments[i].out,
        moments[i + 1].out,
    )
}

/// The moments of a session in order, each following from the one before.
pub open spec fn is_run(moments: Seq<Moment>) -> bool {
    &&& moments.len() >= 1
    &&& forall|i: int| 0 <= i < moments.len() - 1 ==> #[trigger] linked(moments, i)
}

/// The run ends with `r`: in good order once the session is closed, or with
/// the error of the step that failed.
pub open spec fn run_ends(
    moments: Seq<Moment>,
    r: Result<(), Error>,
    wire_after: Seq<u8>,
    out_after: Seq<u8>,
) -> bool {
    let last = moments.last();
    match r {
        Ok(_) => last.session.phase is Closed && wire_after == last.wire && out_after
            == last.out,
        Err(e) => step(
            last.session,
            last.wire,
            Err::<SessionView, Error>(e),
            wire_after,
            last.out,
            out_after,
        ),
    }
}

/// A whole session on the input `wire` with the output `out` to begin with:
/// steps are taken from the initial state until the session is closed or a
/// step fails.
pub open spec fn session_run(
    wire: Seq<u8>,
    r: Result<(), Error>,
    wire_after: Seq<u8>,
    out: Seq<u8>,
    out_after: Seq<u8>,
) -> bool {
    exists|moments: Seq<Moment>|
        #![trigger is_run(moments)]
        is_run(moments) && moments[0] == (Moment { session: Session::initial(), wire, out })
            && run_ends(moments, r, wire_after, out_after)
}

/// What the caller of a session is told: input that ends where a frame
/// would begin is the client's way to end the session, and no error.
pub open spec fn clean_end(r: Result<(), Error>) -> Result<(), Error> {
    if r == Err::<(), Error>(Error::EndOfStream) {
        Ok(())
    } else {
        r
    }
}

/// A request that the processor accepts for later is answered with the
/// delayed status and a flush frame, and with no content frames.
pub proof fn delayed_answer_has_no_content(
    wire: Seq<u8>,
    wire_after: Seq<u8>,
    out: Seq<u8>,
    out_after: Seq<u8>,
)
    requires
        scheduling(wire, Ok(true), wire_after, out, out_after),
        read_payload(wire).0 is Ok,
    ensures
        out_after == out + (text_frames("status=delayed"@) + flush_pkt()),
{
}

/// After a failure of the processor while a request is answered at once,
/// the output ends with the flush frame that closes the content, the error
/// status and a flush frame.
pub proof fn failed_processing_ends_with_error_status(
    wire: Seq<u8>,
    wire_after: Seq<u8>,
    out: Seq<u8>,
    out_after: Seq<u8>,
)
    requires
        inline_processing(wire, Ok(false), wire_after, out, out_after),
    ensures
        error_end().is_suffix_of(out_after),
{
    let produced = choose|produced: Seq<u8>|
        out_after == out + #[trigger] content_response(produced, false);
    failure_ends_with_error_status(out, produced);
}

/// A session in which the client sends its hello and its capability block
/// and then ends the input: the server writes its hello and its capability
/// block and nothing else, all input is read, and the run ends with
/// `EndOfStream`, which the caller is told as a clean end.
pub proof fn handshake_then_end_of_input(
    wire: Seq<u8>,
    r: Result<(), Error>,
    wire_after: Seq<u8>,
    out: Seq<u8>,
    out_after: Seq<u8>,
)
    requires
        session_run(wire, r, wire_after, out, out_after),
        read_client_hello(wire).0 is Ok,
        read_block(read_client_hello(wire).1).0 is Ok,
        read_block(read_client_hello(wire).1).1.len() == 0,
    ensures
        r == Err::<(), Error>(Error::EndOfStream),
        clean_end(r) == Ok::<(), Error>(()),
        wire_after.len() == 0,
        exists|clean_supported: bool, smudge_supported: bool|
            out_after == out + server_hello() + #[trigger] capability_reply(
                offered_capabilities(read_block(read_client_hello(wire).1).0->Ok_0),
                clean_supported,
                smudge_supported,
            ),
{
    let moments = choose|moments: Seq<Moment>|
        #![trigger is_run(moments)]
        is_run(moments) && moments[0] == (Moment { session: Session::initial(), wire, out })
            && run_ends(moments, r, wire_after, out_after);
    let after_hello = read_client_hello(wire).1;
    let lines = read_block(after_hello).0->Ok_0;
    let after_block = read_block(after_hello).1;
    assert(after_block =~= Seq::<u8>::empty());
    assert(read_block(after_block).0 == Err::<Seq<Seq<char>>, Error>(Error::EndOfStream));
    assert(read_block(after_block).1 == after_block);
    if moments.len() >= 2 {
        assert(linked(moments, 0));
        if moments.len() >= 3 {
            assert(linked(moments, 1));
            let (clean_supported, smudge_supported) = choose|c: bool, s: bool|
                moments[2].out == moments[1].out + #[trigger] capability_reply(
                    offered_capabilities(lines),
                    c,
                    s,
                );
            if moments.len() >= 4 {
                assert(linked(moments, 2));
            }
            assert(out_after == out + server_hello() + capability_reply(
                offered_capabilities(lines),
                clean_supported,
                smudge_supported,
            ));
        }
    }
}

/// A session whose client hello is refused ends with that error: nothing is
/// written, and nothing is read behind the frame that was refused.
pub proof fn refused_hello_ends_the_session(
    wire: Seq<u8>,
    r: Result<(), Error>,
    wire_after: Seq<u8>,
    out: Seq<u8>,
    out_after: Seq<u8>,
)
    requires
        session_run(wire, r, wire_after, out, out_after),
        read_client_hello(wire).0 is Err,
    ensures
        r == read_client_hello(wire).0,
        wire_after == read_client_hello(wire).1,
        out_after == out,
{
    let moments = choose|moments: Seq<Moment>|
        #![trigger is_run(moments)]
        is_run(moments) && moments[0] == (Moment { session: Session::initial(), wire, out })
            && run_ends(moments, r, wire_after, out_after);
    if moments.len() >= 2 {
        assert(linked(moments, 0));
    }
}

/// In a run, every moment has the output of the first moment at its front,
/// and no more input than the first.
proof fn run_keeps_output(moments: Seq<Moment>, i: int)
    requires
        is_run(moments),
        0 <= i < moments.len(),
    ensures
        moments[0].out.is_prefix_of(moments[i].out),
        moments[i].wire.len() <= moments[0].wire.len(),
    decreases i,
{
    if i > 0 {
        run_keeps_output(moments, i - 1);
        assert(linked(moments, i - 1));
        let before = moments[i - 1];
        let after = moments[i];
        step_extends_output(
            before.session,
            before.wire,
            Ok(after.session),
            after.wire,
            before.out,
            after.out,
        );
        step_consumes(
            before.session,
            before.wire,
            Ok(after.session),
            after.wire,
            before.out,
            after.out,
        );
        assert(moments[0].out =~= after.out.subrange(0, moments[0].out.len() as int));
    }
}

/// A session only adds to the output and only takes from the input,
/// however it ends.
pub proof fn session_keeps_output(
    wire: Seq<u8>,
    r: Result<(), Error>,
    wire_after: Seq<u8>,
    out: Seq<u8>,
    out_after: Seq<u8>,
)
    requires
        session_run(wire, r, wire_after, out, out_after),
    ensures
        out.is_prefix_of(out_after),
        wire_after.len() <= wire.len(),
{
    let moments = choose|moments: Seq<Moment>|
        #![trigger is_run(moments)]
        is_run(moments) && moments[0] == (Moment { session: Session::initial(), wire, out })
            && run_ends(moments, r, wire_after, out_after);
    let last = moments.last();
    run_keeps_output(moments, moments.len() - 1);
    if r is Err {
        let failed = Err::<SessionView, Error>(r->Err_0);
        step_extends_output(last.session, last.wire, failed, wire_after, last.out, out_after);
        step_consumes(last.session, last.wire, failed, wire_after, last.out, out_after);
        assert(out =~= out_after.subrange(0, out.len() as int));
    }
}

/// In a run from the initial state, the client has not begun to collect as
/// long as the hello and the capabilities are exchanged.
proof fn opening_is_not_waiting(moments: Seq<Moment>, i: int)
    requires
        is_run(moments),
        moments[0].session == Session::initial(),
        0 <= i < moments.len(),
    ensures
        moments[i].session.phase is Init || moments[i].session.phase is CapabilityNegotiation
            ==> !moments[i].session.waiting_for_blobs,
    decreases i,
{
    if i > 0 {
        opening_is_not_waiting(moments, i - 1);
        assert(linked(moments, i - 1));
    }
}

/// Once the client has begun to collect delayed results, every later moment
/// of the session says so.
pub proof fn waiting_is_kept(moments: Seq<Moment>, i: int, j: int)
    requires
        is_run(moments),
        moments[0].session == Session::initial(),
        0 <= i <= j < moments.len(),
        moments[i].session.waiting_for_blobs,
    ensures
        moments[j].session.waiting_for_blobs,
    decreases j - i,
{
    if i < j {
        waiting_is_kept(moments, i, j - 1);
        opening_is_not_waiting(moments, j - 1);
        assert(linked(moments, j - 1));
    }
}

} // verus!
