//! What the server asks of the code that transforms file content.

use vstd::prelude::*;

verus! {

/// The direction of a transformation.
#[derive(PartialEq, Eq, Clone, Copy, Hash, Debug, Structural)]
pub enum ProcessingType {
    /// The clean filter runs when a file is staged.
    Clean,
    /// The smudge filter runs when a file is checked out.
    Smudge,
}

impl ProcessingType {
    /// The command word of this direction.
    pub open spec fn name_text(&self) -> Seq<char> {
        match self {
            ProcessingType::Clean => "clean"@,
            ProcessingType::Smudge => "smudge"@,
        }
    }

    /// The past participle of this direction.
    pub open spec fn done_name_text(&self) -> Seq<char> {
        match self {
            ProcessingType::Clean => "cleaned"@,
            ProcessingType::Smudge => "smudged"@,
        }
    }

    /// The present participle of this direction.
    pub open spec fn acc_name_text(&self) -> Seq<char> {
        match self {
            ProcessingType::Clean => "cleaning"@,
            ProcessingType::Smudge => "smudging"@,
        }
    }

    /// `clean` or `smudge`.
    pub fn name(&self) -> (text: &'static str)
        ensures
            text@ == self.name_text(),
    {
        match self {
            ProcessingType::Clean => "clean",
            ProcessingType::Smudge => "smudge",
        }
    }

    /// `cleaned` or `smudged`.
    pub fn done_name(&self) -> (text: &'static str)
        ensures
            text@ == self.done_name_text(),
    {
        match self {
            ProcessingType::Clean => "cleaned",
            ProcessingType::Smudge => "smudged",
        }
    }

    /// `cleaning` or `smudging`.
    pub fn acc_name(&self) -> (text: &'static str)
        ensures
            text@ == self.acc_name_text(),
    {
        match self {
            ProcessingType::Clean => "cleaning",
            ProcessingType::Smudge => "smudging",
        }
    }
}

/// A failure that a [`Processor`] reports. The server answers it with the
/// error status and ends the session in good order.
#[derive(Debug)]
pub struct ProcessorError {
    /// What went wrong, for logs.
    pub message: String,
}

impl ProcessorError {
    /// A failure with the given description.
    pub fn new(message: &str) -> (e: Self)
        ensures
            e.message@ == message@,
    {
        ProcessorError { message: message.to_owned() }
    }
}

/// The filter logic that the server drives. The server calls one method at a
/// time and promises nothing to itself about what a method returns: every
/// answer is handled.
///
/// The methods have defaults that decline every capability, so an
/// implementation overrides only what it offers.
pub trait Processor {
    /// Transforms the content `input` of the file `pathname`, appending the
    /// result to `output`, which is handed over empty. What was appended
    /// before a failure is still sent.
    ///
    /// The default fails, leaves `output` as it is, and says that processing
    /// is not supported.
    fn process(
        &mut self,
        pathname: &str,
        process_type: ProcessingType,
        input: &[u8],
        output: &mut Vec<u8>,
    ) -> (r: Result<(), ProcessorError>)
        requires
            old(output)@.len() == 0,
        default_ensures
            r is Err,
            r->Err_0.message@ == "processing is not supported"@,
            final(output)@ == old(output)@,
    {
        Err(ProcessorError::new("processing is not supported"))
    }

    /// Takes the content `input` of the file `pathname` for a transformation
    /// whose result is collected later with [`Processor::get_scheduled`].
    ///
    /// The default fails and says that delayed processing is not
    /// implemented.
    fn schedule_process(
        &mut self,
        pathname: &str,
        process_type: ProcessingType,
        input: &[u8],
    ) -> (r: Result<(), ProcessorError>)
        default_ensures
            r is Err,
            r->Err_0.message@ == "delayed processing is not implemented"@,
    {
        Err(ProcessorError::new("delayed processing is not implemented"))
    }

    /// Appends to `output`, which is handed over empty, the result for a
    /// file that was scheduled before. What was appended before a failure is
    /// still sent.
    ///
    /// The default fails, leaves `output` as it is, and says that delayed
    /// processing is not implemented.
    fn get_scheduled(
        &mut self,
        pathname: &str,
        process_type: ProcessingType,
        output: &mut Vec<u8>,
    ) -> (r: Result<(), ProcessorError>)
        requires
            old(output)@.len() == 0,
        default_ensures
            r is Err,
            r->Err_0.message@ == "delayed processing is not implemented"@,
            final(output)@ == old(output)@,
    {
        Err(ProcessorError::new("delayed processing is not implemented"))
    }

    /// Tells the processor that every file was sent and collection begins.
    fn switch_to_wait(&mut self) {
    }

    /// The scheduled files whose results are ready. The server does not call
    /// this: the client asks for each file by name.
    ///
    /// The default fails and says that delayed processing is not
    /// implemented.
    fn get_available(&mut self) -> (r: Result<Vec<String>, ProcessorError>)
        default_ensures
            r is Err,
            r->Err_0.message@ == "delayed processing is not implemented"@,
    {
        Err(ProcessorError::new("delayed processing is not implemented"))
    }

    /// Whether the transformation of this file should be delayed. Worth it
    /// for long-running work only, such as a download.
    ///
    /// The default asks for no delay.
    fn should_delay(&self, pathname: &str, process_type: ProcessingType) -> (delay: bool)
        default_ensures
            !delay,
    {
        false
    }

    /// Whether this processor offers the given direction.
    ///
    /// The default offers none.
    fn supports_processing(&self, process_type: ProcessingType) -> (supported: bool)
        default_ensures
            !supported,
    {
        false
    }
}

/// The processor that offers nothing: it supports no direction, asks for
/// no delay, and fails every request without producing anything.
impl Processor for () {
    fn process(
        &mut self,
        pathname: &str,
        process_type: ProcessingType,
        input: &[u8],
        output: &mut Vec<u8>,
    ) -> (r: Result<(), ProcessorError>)
        ensures
            r is Err,
            r->Err_0.message@ == "processing is not supported"@,
            final(output)@ == old(output)@,
    {
        Err(ProcessorError::new("processing is not supported"))
    }

    fn schedule_process(
        &mut self,
        pathname: &str,
        process_type: ProcessingType,
        input: &[u8],
    ) -> (r: Result<(), ProcessorError>)
        ensures
            r is Err,
            r->Err_0.message@ == "delayed processing is not implemented"@,
    {
        Err(ProcessorError::new("delayed processing is not implemented"))
    }

    fn get_scheduled(
        &mut self,
        pathname: &str,
        process_type: ProcessingType,
        output: &mut Vec<u8>,
    ) -> (r: Result<(), ProcessorError>)
        ensures
            r is Err,
            r->Err_0.message@ == "delayed processing is not implemented"@,
            final(output)@ == old(output)@,
    {
        Err(ProcessorError::new("delayed processing is not implemented"))
    }

    fn switch_to_wait(&mut self) {
    }

    fn get_available(&mut self) -> (r: Result<Vec<String>, ProcessorError>)
        ensures
            r is Err,
            r->Err_0.message@ == "delayed processing is not implemented"@,
    {
        Err(ProcessorError::new("delayed processing is not implemented"))
    }

    fn should_delay(&self, pathname: &str, process_type: ProcessingType) -> (delay: bool)
        ensures
            !delay,
    {
        false
    }

    fn supports_processing(&self, process_type: ProcessingType) -> (supported: bool)
        ensures
            !supported,
    {
        false
    }
}

} // verus!
