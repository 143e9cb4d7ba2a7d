//! The dialogue of the filter protocol: the blocks of lines that the client
//! sends, what they mean, and the blocks that the server answers with.

use crate::error::{Error, ParseError};
use crate::ext::{
    flush_pkt,
    frames,
    frames_concat,
    read_frame,
    read_text,
    text_frames,
    ByteReader,
    ReadExt,
    WriteExt,
    MAX_PKT_SIZE,
};
use crate::processor::ProcessingType;
use crate::util::{full_len, read_payload, ReadPktUntilFlush, WritePkt};
use vstd::prelude::*;
use vstd::string::StringSliceAdditionalSpecFns;

verus! {

/// `str::strip_prefix`, not verified here. When `text` starts with `prefix`
/// it returns what follows the prefix, and `None` otherwise.
#[verifier::external_body]
fn strip_prefix<'a>(text: &'a str, prefix: &str) -> (r: Option<&'a str>)
    ensures
        r is Some <==> prefix@.is_prefix_of(text@),
        r is Some ==> r->Some_0@ == text@.skip(prefix@.len() as int),
{
    text.strip_prefix(prefix)
}

/// Whether two strings hold the same text.
fn same_text(a: &str, b: &str) -> (same: bool)
    ensures
        same == (a@ == b@),
{
    let x = a.as_bytes();
    let y = b.as_bytes();
    proof {
        vstd::utf8::encode_utf8_decode_utf8(a@);
        vstd::utf8::encode_utf8_decode_utf8(b@);
    }
    if x.len() != y.len() {
        return false;
    }
    let mut i: usize = 0;
    while i < x.len()
        invariant
            i <= x@.len(),
            x@.len() == y@.len(),
            x@ == a.spec_bytes(),
            y@ == b.spec_bytes(),
            forall|j: int| 0 <= j < i ==> x@[j] == y@[j],
        decreases x@.len() - i,
    {
        if x[i] != y[i] {
            return false;
        }
        i += 1;
    }
    assert(x@ =~= y@);
    true
}

/// The text of each line.
pub open spec fn texts(lines: Seq<String>) -> Seq<Seq<char>> {
    lines.map_values(|line: String| line@)
}

/// Reading text frames from `wire` up to the next flush frame: the lines in
/// order, or the first error met, and the bytes left after the flush frame
/// or the error.
pub open spec fn read_block(wire: Seq<u8>) -> (Result<Seq<Seq<char>>, Error>, Seq<u8>)
    decreases wire.len(),
{
    let (first, rest) = read_text(wire);
    match first {
        Err(e) => (Err(e), rest),
        Ok(None) => (Ok(Seq::empty()), rest),
        Ok(Some(line)) => {
            let (more, after) = read_block(rest);
            match more {
                Err(e) => (Err(e), after),
                Ok(lines) => (Ok(seq![line] + lines), after),
            }
        },
    }
}

/// Reads the lines of one block: text frames up to the next flush frame.
pub fn read_lines(input: &mut ByteReader) -> (r: Result<Vec<String>, Error>)
    ensures
        final(input)@ == read_block(old(input)@).1,
        match r {
            Ok(lines) => read_block(old(input)@).0 == Ok::<Seq<Seq<char>>, Error>(texts(lines@)),
            Err(e) => read_block(old(input)@).0 == Err::<Seq<Seq<char>>, Error>(e),
        },
{
    let mut lines: Vec<String> = Vec::new();
    let mut buf: Vec<u8> = Vec::new();
    assert(texts(lines@) =~= Seq::<Seq<char>>::empty());
    loop
        invariant
            read_block(input@).1 == read_block(old(input)@).1,
            match read_block(input@).0 {
                Ok(more) => read_block(old(input)@).0 == Ok::<Seq<Seq<char>>, Error>(
                    texts(lines@) + more,
                ),
                Err(e) => read_block(old(input)@).0 == Err::<Seq<Seq<char>>, Error>(e),
            },
        decreases input@.len(),
    {
        let ghost wire = input@;
        let ghost before = texts(lines@);
        match input.pkt_text_read(&mut buf) {
            Err(e) => {
                return Err(e);
            },
            Ok(None) => {
                assert(before + Seq::<Seq<char>>::empty() =~= before);
                return Ok(lines);
            },
            Ok(Some(line)) => {
                proof {
                    assert(input@.len() < wire.len());
                    match read_block(input@).0 {
                        Ok(more) => {
                            assert(before + (seq![line@] + more) =~= (before + seq![line@])
                                + more);
                        },
                        Err(e) => {},
                    }
                }
                lines.push(line);
                assert(texts(lines@) =~= before + seq![line@]);
            },
        }
    }
}

/// Reading one text frame that must be `expected`, a line or the flush
/// frame: any other frame is the parse error `otherwise`.
pub open spec fn read_expected(
    wire: Seq<u8>,
    expected: Option<Seq<char>>,
    otherwise: ParseError,
) -> (Result<(), Error>, Seq<u8>) {
    let (found, rest) = read_text(wire);
    match found {
        Err(e) => (Err(e), rest),
        Ok(line) => if line == expected {
            (Ok(()), rest)
        } else {
            (Err(Error::Parse(otherwise)), rest)
        },
    }
}

/// Reading the client hello: the lines `git-filter-client` and `version=2`
/// and a flush frame. Reading stops at the first frame that is not the
/// expected one.
pub open spec fn read_client_hello(wire: Seq<u8>) -> (Result<(), Error>, Seq<u8>) {
    let (prelude, rest1) = read_expected(
        wire,
        Some("git-filter-client"@),
        ParseError::BadPrelude,
    );
    if prelude is Err {
        (prelude, rest1)
    } else {
        let (version, rest2) = read_expected(
            rest1,
            Some("version=2"@),
            ParseError::UnknownVersion,
        );
        if version is Err {
            (version, rest2)
        } else {
            read_expected(rest2, None, ParseError::UnexpectedTextAfterHello)
        }
    }
}

/// The server hello: the lines `git-filter-server` and `version=2` and a
/// flush frame.
pub open spec fn server_hello() -> Seq<u8> {
    text_frames("git-filter-server"@) + text_frames("version=2"@) + flush_pkt()
}

/// Reads one text frame and accepts it only if it is `expected`.
fn expect(input: &mut ByteReader, expected: Option<&str>, otherwise: ParseError) -> (r: Result<
    (),
    Error,
>)
    ensures
        (r, final(input)@) == read_expected(
            old(input)@,
            match expected {
                Some(text) => Some(text@),
                None => None,
            },
            otherwise,
        ),
{
    let mut buf: Vec<u8> = Vec::new();
    let found = input.pkt_text_read(&mut buf)?;
    let matches = match found {
        Some(line) => match expected {
            Some(text) => same_text(line.as_str(), text),
            None => false,
        },
        None => expected.is_none(),
    };
    if matches {
        Ok(())
    } else {
        Err(Error::Parse(otherwise))
    }
}

/// Reads the client hello.
pub fn read_hello(input: &mut ByteReader) -> (r: Result<(), Error>)
    ensures
        (r, final(input)@) == read_client_hello(old(input)@),
{
    expect(input, Some("git-filter-client"), ParseError::BadPrelude)?;
    expect(input, Some("version=2"), ParseError::UnknownVersion)?;
    expect(input, None, ParseError::UnexpectedTextAfterHello)
}

/// Writes the server hello.
pub fn write_hello(output: &mut Vec<u8>)
    ensures
        final(output)@ == old(output)@ + server_hello(),
{
    let ghost before = output@;
    output.pkt_text_write("git-filter-server");
    output.pkt_text_write("version=2");
    output.pkt_end();
    assert(output@ =~= before + server_hello());
}

/// The capabilities that a client or a processor may offer.
#[derive(Debug, Clone, Copy, PartialEq, Eq, Structural)]
pub struct Capabilities {
    /// The clean filter.
    pub clean: bool,
    /// The smudge filter.
    pub smudge: bool,
    /// Delayed delivery of results.
    pub delay: bool,
}

/// What a block of capability lines offers. A line that names no known
/// capability counts for nothing.
pub open spec fn offered_capabilities(lines: Seq<Seq<char>>) -> Capabilities {
    Capabilities {
        clean: lines.contains("capability=clean"@),
        smudge: lines.contains("capability=smudge"@),
        delay: lines.contains("capability=delay"@),
    }
}

/// The server's capability block: of what the client offered, the filters
/// that the processor supports, and delay in any case; then a flush frame.
pub open spec fn capability_reply(
    offered: Capabilities,
    clean_supported: bool,
    smudge_supported: bool,
) -> Seq<u8> {
    (if offered.clean && clean_supported {
        text_frames("capability=clean"@)
    } else {
        Seq::empty()
    }) + (if offered.smudge && smudge_supported {
        text_frames("capability=smudge"@)
    } else {
        Seq::empty()
    }) + (if offered.delay {
        text_frames("capability=delay"@)
    } else {
        Seq::empty()
    }) + flush_pkt()
}

/// Finds out what a block of capability lines offers.
pub fn parse_capabilities(lines: &Vec<String>) -> (offered: Capabilities)
    ensures
        offered == offered_capabilities(texts(lines@)),
{
    let mut offered = Capabilities { clean: false, smudge: false, delay: false };
    let mut i: usize = 0;
    while i < lines.len()
        invariant
            i <= lines@.len(),
            offered == offered_capabilities(texts(lines@).take(i as int)),
        decreases lines@.len() - i,
    {
        let line = lines[i].as_str();
        if same_text(line, "capability=clean") {
            offered.clean = true;
        } else if same_text(line, "capability=smudge") {
            offered.smudge = true;
        } else if same_text(line, "capability=delay") {
            offered.delay = true;
        }
        proof {
            let seen = texts(lines@).take(i as int);
            let next = texts(lines@).take(i + 1);
            assert(texts(lines@)[i as int] == line@);
            assert(next =~= seen.push(line@));
            assert(forall|text: Seq<char>|
                next.contains(text) <==> seen.contains(text) || text == line@) by {
                assert forall|text: Seq<char>| next.contains(text) implies seen.contains(text)
                    || text == line@ by {
                    let k = choose|k: int| 0 <= k < next.len() && next[k] == text;
                    if k < seen.len() {
                        assert(seen[k] == text);
                    }
                }
                assert forall|text: Seq<char>| seen.contains(text) || text
                    == line@ implies next.contains(text) by {
                    if seen.contains(text) {
                        let k = choose|k: int| 0 <= k < seen.len() && seen[k] == text;
                        assert(next[k] == text);
                    } else {
                        assert(next[seen.len() as int] == text);
                    }
                }
            }
            reveal_strlit("capability=clean");
            reveal_strlit("capability=smudge");
            reveal_strlit("capability=delay");
            assert("capability=clean"@.len() == 16 && "capability=smudge"@.len() == 17);
            assert("capability=clean"@[11] == 'c' && "capability=delay"@[11] == 'd');
            assert(offered.clean == next.contains("capability=clean"@));
            assert(offered.smudge == next.contains("capability=smudge"@));
            assert(offered.delay == next.contains("capability=delay"@));
        }
        i += 1;
    }
    assert(texts(lines@).take(lines@.len() as int) =~= texts(lines@));
    offered
}

/// Writes the server's capability block.
pub fn write_capabilities(
    output: &mut Vec<u8>,
    offered: Capabilities,
    clean_supported: bool,
    smudge_supported: bool,
)
    ensures
        final(output)@ == old(output)@ + capability_reply(
            offered,
            clean_supported,
            smudge_supported,
        ),
{
    let ghost before = output@;
    if offered.clean && clean_supported {
        output.pkt_text_write("capability=clean");
    }
    if offered.smudge && smudge_supported {
        output.pkt_text_write("capability=smudge");
    }
    if offered.delay {
        output.pkt_text_write("capability=delay");
    }
    output.pkt_end();
    assert(output@ =~= before + capability_reply(offered, clean_supported, smudge_supported));
}

/// What follows `prefix` in `line`, if the line starts with it.
pub open spec fn after_prefix(line: Seq<char>, prefix: Seq<char>) -> Option<Seq<char>> {
    if prefix.is_prefix_of(line) {
        Some(line.skip(prefix.len() as int))
    } else {
        None
    }
}

/// The entries of a command block.
pub struct CommandEntries {
    /// The value of the last `command=` line.
    pub command: Option<Seq<char>>,
    /// The value of the last `pathname=` line.
    pub pathname: Option<Seq<char>>,
    /// Whether a line `can-delay=1` is present.
    pub can_delay: bool,
}

/// The entries that the lines of a command block set. A later line overrules
/// an earlier one of the same key, and a line of no known key counts for
/// nothing.
pub open spec fn block_entries(lines: Seq<Seq<char>>) -> CommandEntries
    decreases lines.len(),
{
    if lines.len() == 0 {
        CommandEntries { command: None, pathname: None, can_delay: false }
    } else {
        let before = block_entries(lines.drop_last());
        let line = lines.last();
        if after_prefix(line, "command="@) is Some {
            CommandEntries {
                command: after_prefix(line, "command="@),
                pathname: before.pathname,
                can_delay: before.can_delay,
            }
        } else if after_prefix(line, "pathname="@) is Some {
            CommandEntries {
                command: before.command,
                pathname: after_prefix(line, "pathname="@),
                can_delay: before.can_delay,
            }
        } else if line == "can-delay=1"@ {
            CommandEntries { command: before.command, pathname: before.pathname, can_delay: true }
        } else {
            before
        }
    }
}

/// A request to clean or smudge the content of one file.
#[derive(Debug)]
pub struct Request {
    /// The direction of the transformation.
    pub process_type: ProcessingType,
    /// The path of the file in the repository.
    pub pathname: String,
    /// Whether the client accepts a delayed answer.
    pub can_delay: bool,
}

/// A [`Request`] with its path as text.
pub struct RequestView {
    pub process_type: ProcessingType,
    pub pathname: Seq<char>,
    pub can_delay: bool,
}

impl View for Request {
    type V = RequestView;

    open spec fn view(&self) -> RequestView {
        RequestView {
            process_type: self.process_type,
            pathname: self.pathname@,
            can_delay: self.can_delay,
        }
    }
}

/// What a command block asks for.
#[derive(Debug)]
pub enum Command {
    /// Transform a file.
    Process(Request),
    /// From now on the client collects the results that were delayed.
    ListAvailableBlobs,
}

/// A [`Command`] with its path as text.
pub enum CommandView {
    Process(RequestView),
    ListAvailableBlobs,
}

impl View for Command {
    type V = CommandView;

    open spec fn view(&self) -> CommandView {
        match self {
            Command::Process(request) => CommandView::Process(request@),
            Command::ListAvailableBlobs => CommandView::ListAvailableBlobs,
        }
    }
}

/// The command that the entries of a block make up. The command word is
/// needed, and a request to clean or smudge needs a path.
pub open spec fn command_of(entries: CommandEntries) -> Result<CommandView, ParseError> {
    match entries.command {
        None => Err(ParseError::MissingCommand),
        Some(word) => if word == "clean"@ || word == "smudge"@ {
            match entries.pathname {
                None => Err(ParseError::MissingPathname),
                Some(pathname) => Ok(
                    CommandView::Process(
                        RequestView {
                            process_type: if word == "clean"@ {
                                ProcessingType::Clean
                            } else {
                                ProcessingType::Smudge
                            },
                            pathname,
                            can_delay: entries.can_delay,
                        },
                    ),
                ),
            }
        } else if word == "list_available_blobs"@ {
            Ok(CommandView::ListAvailableBlobs)
        } else {
            Err(ParseError::UnknownCommand)
        },
    }
}

/// Finds out what the lines of a command block ask for.
pub fn parse_command(lines: &Vec<String>) -> (r: Result<Command, ParseError>)
    ensures
        match r {
            Ok(command) => command_of(block_entries(texts(lines@))) == Ok::<
                CommandView,
                ParseError,
            >(command@),
            Err(e) => command_of(block_entries(texts(lines@))) == Err::<CommandView, ParseError>(
                e,
            ),
        },
{
    let mut command: Option<String> = None;
    let mut pathname: Option<String> = None;
    let mut can_delay = false;
    let mut i: usize = 0;
    while i < lines.len()
        invariant
            i <= lines@.len(),
            entries_match(
                block_entries(texts(lines@).take(i as int)),
                command,
                pathname,
                can_delay,
            ),
        decreases lines@.len() - i,
    {
        let line = lines[i].as_str();
        proof {
            let next = texts(lines@).take(i + 1);
            assert(next.drop_last() =~= texts(lines@).take(i as int));
            assert(next.last() == line@);
        }
        if let Some(word) = strip_prefix(line, "command=") {
            command = Some(word.to_owned());
        } else if let Some(path) = strip_prefix(line, "pathname=") {
            pathname = Some(path.to_owned());
        } else if same_text(line, "can-delay=1") {
            can_delay = true;
        }
        i += 1;
    }
    assert(texts(lines@).take(lines@.len() as int) =~= texts(lines@));
    let word = match command {
        None => {
            return Err(ParseError::MissingCommand);
        },
        Some(word) => word,
    };
    let clean = same_text(word.as_str(), "clean");
    if clean || same_text(word.as_str(), "smudge") {
        let process_type = if clean {
            ProcessingType::Clean
        } else {
            ProcessingType::Smudge
        };
        match pathname {
            None => Err(ParseError::MissingPathname),
            Some(pathname) => Ok(Command::Process(Request { process_type, pathname, can_delay })),
        }
    } else if same_text(word.as_str(), "list_available_blobs") {
        Ok(Command::ListAvailableBlobs)
    } else {
        Err(ParseError::UnknownCommand)
    }
}

/// The values that were read stand for `entries`.
pub open spec fn entries_match(
    entries: CommandEntries,
    command: Option<String>,
    pathname: Option<String>,
    can_delay: bool,
) -> bool {
    &&& match command {
        Some(word) => entries.command == Some(word@),
        None => entries.command is None,
    }
    &&& match pathname {
        Some(path) => entries.pathname == Some(path@),
        None => entries.pathname is None,
    }
    &&& entries.can_delay == can_delay
}

/// A status line and the flush frame that ends the status list.
pub open spec fn status_block(status: Seq<char>) -> Seq<u8> {
    text_frames(status) + flush_pkt()
}

/// What follows the success status when content is delivered: the content
/// in frames and a flush frame; then a second flush frame, which leaves the
/// status as it is, or the error status where the processor failed.
pub open spec fn content_end(produced: Seq<u8>, ok: bool) -> Seq<u8> {
    frames(produced) + flush_pkt() + if ok {
        flush_pkt()
    } else {
        status_block("status=error"@)
    }
}

/// The whole answer to a request whose content is delivered at once.
pub open spec fn content_response(produced: Seq<u8>, ok: bool) -> Seq<u8> {
    status_block("status=success"@) + content_end(produced, ok)
}

/// The answer to a request whose content the processor was asked to keep
/// for later: the delayed status, or the error status where it refused.
pub open spec fn schedule_response(ok: bool) -> Seq<u8> {
    if ok {
        status_block("status=delayed"@)
    } else {
        status_block("status=error"@)
    }
}

/// Writes a status line and closes the status list.
pub fn write_status(output: &mut Vec<u8>, status: &str)
    ensures
        final(output)@ == old(output)@ + status_block(status@),
{
    let ghost before = output@;
    output.pkt_text_write(status);
    output.pkt_end();
    assert(output@ =~= before + status_block(status@));
}

/// Writes what follows the success status: the content that the processor
/// produced, and the end that fits the processor's result.
pub fn write_content_end(output: &mut Vec<u8>, produced: &[u8], ok: bool)
    ensures
        final(output)@ == old(output)@ + content_end(produced@, ok),
{
    let ghost before = output@;
    let mut sink: Vec<u8> = Vec::new();
    std::mem::swap(output, &mut sink);
    let mut process_output = WritePkt::new(sink);
    process_output.write(produced);
    proof {
        let all = Seq::<u8>::empty() + produced@;
        let full = full_len(all.len());
        assert(0 <= full <= all.len() && full % (MAX_PKT_SIZE as int) == 0) by (nonlinear_arith)
            requires
                full == (all.len() / (MAX_PKT_SIZE as nat)) * MAX_PKT_SIZE,
        ;
        frames_concat(all.take(full), all.skip(full));
        assert(all.take(full) + all.skip(full) =~= produced@);
    }
    let mut sink = process_output.close();
    std::mem::swap(output, &mut sink);
    assert(output@ =~= before + frames(produced@));
    output.pkt_end();
    if ok {
        output.pkt_end();
    } else {
        write_status(output, "status=error");
    }
    assert(output@ =~= before + content_end(produced@, ok));
}

/// Writes the answer to a request that the processor was asked to keep.
pub fn write_schedule_response(output: &mut Vec<u8>, ok: bool)
    ensures
        final(output)@ == old(output)@ + schedule_response(ok),
{
    if ok {
        write_status(output, "status=delayed");
    } else {
        write_status(output, "status=error");
    }
}

/// The end of an answer that reports a failure of the processor: the flush
/// frame that closes the content, the error status, and the flush frame
/// that closes the status list.
pub open spec fn error_end() -> Seq<u8> {
    flush_pkt() + text_frames("status=error"@) + flush_pkt()
}

/// Where the processor fails while content is delivered, the answer ends
/// with the flush frame that closes the content, the error status and the
/// flush frame that closes the status list, whatever was written before.
pub proof fn failure_ends_with_error_status(out: Seq<u8>, produced: Seq<u8>)
    ensures
        error_end().is_suffix_of(out + content_response(produced, false)),
{
    let head = out + status_block("status=success"@) + frames(produced);
    let all = out + content_response(produced, false);
    assert(all =~= head + error_end());
    assert(all.subrange(all.len() - error_end().len(), all.len() as int) =~= error_end());
}

/// Reads the content that comes with a request: the payload of the frames
/// up to the next flush frame.
pub fn read_content(input: &mut ByteReader) -> (r: Result<Vec<u8>, Error>)
    ensures
        final(input)@ == read_payload(old(input)@).1,
        match r {
            Ok(content) => read_payload(old(input)@).0 == Ok::<Seq<u8>, Error>(content@),
            Err(e) => read_payload(old(input)@).0 == Err::<Seq<u8>, Error>(e),
        },
{
    let mut source = ByteReader::new(Vec::new());
    std::mem::swap(input, &mut source);
    let mut process_input = ReadPktUntilFlush::new(source);
    let mut content: Vec<u8> = Vec::new();
    let got = process_input.read_to_end(&mut content);
    let mut source = process_input.into_inner();
    std::mem::swap(input, &mut source);
    match got {
        Err(e) => Err(e),
        Ok(_) => {
            proof {
                let data = read_payload(old(input)@).0->Ok_0;
                assert(Seq::<u8>::empty() + data =~= data);
                assert(content@.skip(0) =~= content@);
            }
            Ok(content)
        },
    }
}

/// Makes sure that no content comes with a request: the next frame must be
/// the flush frame.
pub fn read_no_content(input: &mut ByteReader) -> (r: Result<(), Error>)
    ensures
        final(input)@ == read_frame(old(input)@).1,
        r == match read_frame(old(input)@).0 {
            Err(e) => Err::<(), Error>(e),
            Ok(Some(_)) => Err(Error::Parse(ParseError::DelayedBlobHasData)),
            Ok(None) => Ok(()),
        },
{
    let mut source = ByteReader::new(Vec::new());
    std::mem::swap(input, &mut source);
    let mut process_input = ReadPktUntilFlush::new(source);
    let mut sink = [0u8;1];
    let got = process_input.read_into(&mut sink);
    let mut source = process_input.into_inner();
    std::mem::swap(input, &mut source);
    match got {
        Err(e) => Err(e),
        Ok(n) => if n == 0 {
            Ok(())
        } else {
            Err(Error::Parse(ParseError::DelayedBlobHasData))
        },
    }
}

/// Reading a block takes at least its flush frame.
pub proof fn read_block_consumes(wire: Seq<u8>)
    ensures
        read_block(wire).1.len() <= wire.len(),
        read_block(wire).0 is Ok ==> read_block(wire).1.len() < wire.len(),
    decreases wire.len(),
{
    let (first, rest) = read_text(wire);
    if first is Ok && first->Ok_0 is Some {
        read_block_consumes(rest);
    }
}

} // verus!
