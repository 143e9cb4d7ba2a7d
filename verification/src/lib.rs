//! The server side of Git's long-running filter process protocol, version 2.
//!
//! Git starts a filter once and sends it the content of many files, to be
//! cleaned when a file is staged or smudged when it is checked out. This
//! crate holds the protocol: the pkt-line framing in [`ext`], the payload
//! streams in [`util`], the blocks of the dialogue in [`dialogue`], the
//! steps of a session in [`session`], and the server that drives a
//! [`Processor`] through a session.

pub mod dialogue;
pub mod error;
pub mod ext;
pub mod processor;
pub mod session;
pub mod util;

pub use crate::dialogue::Request;
pub use crate::error::{Error, ParseError};
pub use crate::ext::{ByteReader, ReadExt, WriteExt};
pub use crate::processor::{ProcessingType, Processor, ProcessorError};
pub use crate::session::{Phase, Session};
pub use crate::util::{ReadPktUntilFlush, WritePkt};

use crate::dialogue::{
    content_response,
    parse_capabilities,
    parse_command,
    read_content,
    read_hello,
    read_lines,
    read_no_content,
    write_capabilities,
    write_content_end,
    write_hello,
    write_schedule_response,
    write_status,
    Command,
};
use crate::session::{
    clean_end,
    delivery,
    inline_processing,
    is_run,
    linked,
    outcome,
    request_outcome,
    scheduling,
    session_keeps_output,
    session_run,
    step,
    step_consumes,
    Moment,
};
use vstd::prelude::*;

verus! {

/// The filter server: it answers the client on behalf of a processor.
pub struct GitFilterServer<P>(P);

impl<P> GitFilterServer<P> {
    /// The processor that the server drives.
    pub closed spec fn processor(&self) -> P {
        self.0
    }

    /// A server in front of `processor`.
    pub fn new(processor: P) -> (server: Self)
        ensures
            server.processor() == processor,
    {
        Self(processor)
    }

    /// Gives the processor back.
    pub fn into_processor(self) -> (processor: P)
        ensures
            processor == self.processor(),
    {
        self.0
    }
}

impl<P: Processor> GitFilterServer<P> {
    /// Answers a request while the client collects delayed results: the
    /// request must come without content, and the processor is asked for
    /// the result that it kept. Returns whether the processor succeeded.
    pub fn deliver_scheduled(
        &mut self,
        request: &Request,
        input: &mut ByteReader,
        output: &mut Vec<u8>,
    ) -> (r: Result<bool, Error>)
        ensures
            delivery(old(input)@, r, final(input)@, old(output)@, final(output)@),
    {
        read_no_content(input)?;
        let ghost before = output@;
        write_status(output, "status=success");
        let mut produced: Vec<u8> = Vec::new();
        let ok = self.0.get_scheduled(
            request.pathname.as_str(),
            request.process_type,
            &mut produced,
        ).is_ok();
        write_content_end(output, produced.as_slice(), ok);
        assert(output@ =~= before + content_response(produced@, ok));
        assert(exists|data: Seq<u8>| output@ == before + #[trigger] content_response(data, ok));
        let r: Result<bool, Error> = Ok(ok);
        assert(r->Ok_0 == ok);
        r
    }

    /// Answers a request whose transformation the processor wants to delay:
    /// the content is handed over, and the answer holds a status and
    /// nothing else. Returns whether the processor accepted.
    pub fn schedule_request(
        &mut self,
        request: &Request,
        input: &mut ByteReader,
        output: &mut Vec<u8>,
    ) -> (r: Result<bool, Error>)
        ensures
            scheduling(old(input)@, r, final(input)@, old(output)@, final(output)@),
    {
        let content = read_content(input)?;
        let ok = self.0.schedule_process(
            request.pathname.as_str(),
            request.process_type,
            content.as_slice(),
        ).is_ok();
        write_schedule_response(output, ok);
        Ok(ok)
    }

    /// Answers a request at once: the success status is written, the
    /// content is read and handed to the processor, and what it produced is
    /// sent, also where it failed. Returns whether the processor succeeded.
    pub fn process_request(
        &mut self,
        request: &Request,
        input: &mut ByteReader,
        output: &mut Vec<u8>,
    ) -> (r: Result<bool, Error>)
        ensures
            inline_processing(old(input)@, r, final(input)@, old(output)@, final(output)@),
    {
        let ghost before = output@;
        write_status(output, "status=success");
        let content = read_content(input)?;
        let mut produced: Vec<u8> = Vec::new();
        let ok = self.0.process(
            request.pathname.as_str(),
            request.process_type,
            content.as_slice(),
            &mut produced,
        ).is_ok();
        write_content_end(output, produced.as_slice(), ok);
        assert(output@ =~= before + content_response(produced@, ok));
        assert(exists|data: Seq<u8>| output@ == before + #[trigger] content_response(data, ok));
        let r: Result<bool, Error> = Ok(ok);
        assert(r->Ok_0 == ok);
        r
    }

    /// Answers a request in the way that the state of the session and the
    /// processor's wish ask for: while the client collects, a delayed
    /// result is handed out; otherwise the content is kept for later where
    /// `delay` says that the client accepts a delay and the processor wants
    /// one, and is transformed at once where it does not. Returns whether
    /// the processor succeeded.
    pub fn answer_request(
        &mut self,
        request: &Request,
        waiting_for_blobs: bool,
        delay: bool,
        input: &mut ByteReader,
        output: &mut Vec<u8>,
    ) -> (r: Result<bool, Error>)
        ensures
            if waiting_for_blobs {
                delivery(old(input)@, r, final(input)@, old(output)@, final(output)@)
            } else if delay {
                scheduling(old(input)@, r, final(input)@, old(output)@, final(output)@)
            } else {
                inline_processing(old(input)@, r, final(input)@, old(output)@, final(output)@)
            },
    {
        if waiting_for_blobs {
            self.deliver_scheduled(request, input, output)
        } else if delay {
            self.schedule_request(request, input, output)
        } else {
            self.process_request(request, input, output)
        }
    }

    /// Takes one step of a session: reads what the phase expects, consults
    /// the processor where the protocol leaves the decision to it, writes
    /// the answer, and returns the state for the next step.
    pub fn advance(&mut self, session: Session, input: &mut ByteReader, output: &mut Vec<u8>) -> (r:
        Result<Session, Error>)
        ensures
            step(
                session@,
                old(input)@,
                outcome(r),
                final(input)@,
                old(output)@,
                final(output)@,
            ),
    {
        let Session { phase, delay_capability_acknowledged, waiting_for_blobs } = session;
        match phase {
            Phase::Init => {
                read_hello(input)?;
                write_hello(output);
                Ok(
                    Session {
                        phase: Phase::CapabilityNegotiation,
                        delay_capability_acknowledged,
                        waiting_for_blobs,
                    },
                )
            },
            Phase::CapabilityNegotiation => {
                let lines = read_lines(input)?;
                let offered = parse_capabilities(&lines);
                let clean_supported = offered.clean && self.0.supports_processing(
                    ProcessingType::Clean,
                );
                let smudge_supported = offered.smudge && self.0.supports_processing(
                    ProcessingType::Smudge,
                );
                write_capabilities(output, offered, clean_supported, smudge_supported);
                Ok(
                    Session {
                        phase: Phase::CommandLoop,
                        delay_capability_acknowledged: offered.delay,
                        waiting_for_blobs: false,
                    },
                )
            },
            Phase::CommandLoop => {
                let lines = read_lines(input)?;
                match parse_command(&lines) {
                    Err(e) => Err(Error::Parse(e)),
                    Ok(Command::ListAvailableBlobs) => {
                        self.0.switch_to_wait();
                        Ok(
                            Session {
                                phase: Phase::CommandLoop,
                                delay_capability_acknowledged,
                                waiting_for_blobs: true,
                            },
                        )
                    },
                    Ok(Command::Process(request)) => Ok(
                        Session {
                            phase: Phase::RequestPhase(request),
                            delay_capability_acknowledged,
                            waiting_for_blobs,
                        },
                    ),
                }
            },
            Phase::RequestPhase(request) => {
                let delay = !waiting_for_blobs && request.can_delay && self.0.should_delay(
                    request.pathname.as_str(),
                    request.process_type,
                );
                let answer = self.answer_request(
                    &request,
                    waiting_for_blobs,
                    delay,
                    input,
                    output,
                );
                let r = match answer {
                    Err(e) => Err(e),
                    Ok(ok) => Ok(
                        Session {
                            phase: if ok {
                                Phase::CommandLoop
                            } else {
                                Phase::Closed
                            },
                            delay_capability_acknowledged,
                            waiting_for_blobs,
                        },
                    ),
                };
                assert(outcome(r) == request_outcome(session@, answer));
                r
            },
            Phase::Closed => Ok(
                Session { phase: Phase::Closed, delay_capability_acknowledged, waiting_for_blobs },
            ),
        }
    }

    /// Runs a session from its first byte until the session is closed or a
    /// step fails.
    fn communicate_internal(&mut self, input: &mut ByteReader, output: &mut Vec<u8>) -> (r: Result<
        (),
        Error,
    >)
        ensures
            session_run(old(input)@, r, final(input)@, old(output)@, final(output)@),
    {
        let mut session = Session::new();
        let ghost mut moments: Seq<Moment> = seq![
            Moment { session: session@, wire: input@, out: output@ },
        ];
        loop
            invariant
                is_run(moments),
                moments[0] == (Moment {
                    session: Session::initial(),
                    wire: old(input)@,
                    out: old(output)@,
                }),
                moments.last() == (Moment { session: session@, wire: input@, out: output@ }),
            decreases input@.len(),
                if session.phase is Closed {
                    0int
                } else {
                    1int
                },
        {
            if let Phase::Closed = session.phase {
                return Ok(());
            }
            let ghost before = Moment { session: session@, wire: input@, out: output@ };
            match self.advance(session, input, output) {
                Err(e) => {
                    return Err(e);
                },
                Ok(next) => {
                    proof {
                        let after = Moment { session: next@, wire: input@, out: output@ };
                        step_consumes(
                            before.session,
                            before.wire,
                            Ok(next@),
                            after.wire,
                            before.out,
                            after.out,
                        );
                        let longer = moments.push(after);
                        assert forall|i: int| 0 <= i < longer.len() - 1 implies #[trigger] linked(
                            longer,
                            i,
                        ) by {
                            if i < moments.len() - 1 {
                                assert(linked(moments, i));
                            }
                        }
                        moments = longer;
                    }
                    session = next;
                },
            }
        }
    }

    /// Runs a whole session: reads the client's side from `input` and
    /// appends the server's side to `output`. Input that ends where a frame
    /// would begin ends the session in good order, as does a failure of the
    /// processor once it was reported to the client.
    pub fn communicate(&mut self, input: &mut ByteReader, output: &mut Vec<u8>) -> (r: Result<
        (),
        Error,
    >)
        ensures
            exists|inner: Result<(), Error>|
                r == #[trigger] clean_end(inner) && session_run(
                    old(input)@,
                    inner,
                    final(input)@,
                    old(output)@,
                    final(output)@,
                ),
            r != Err::<(), Error>(Error::EndOfStream),
            old(output)@.is_prefix_of(final(output)@),
            final(input)@.len() <= old(input)@.len(),
    {
        let inner = self.communicate_internal(input, output);
        proof {
            session_keeps_output(old(input)@, inner, input@, old(output)@, output@);
        }
        let r = match inner {
            Ok(done) => Ok(done),
            Err(Error::EndOfStream) => Ok(()),
            Err(e) => Err(e),
        };
        assert(r == clean_end(inner));
        r
    }
}

} // verus!
