//! What the searchers send to the printer, and where it may go.

use crate::error::SearchError;
use std::string::FromUtf8Error;
use vstd::prelude::*;
use vstd::utf8::{encode_utf8, valid_utf8};

verus! {

/// The error with which std refuses bytes that are no UTF-8.
#[verifier::external_type_specification]
#[verifier::external_body]
pub struct ExFromUtf8Error(FromUtf8Error);

/// Calls `String::from_utf8`. Trusted: it succeeds exactly on valid UTF-8,
/// and the string it gives has the bytes it was given.
#[verifier::external_body]
pub(crate) fn string_from_utf8(bytes: Vec<u8>) -> (decoded: Result<String, FromUtf8Error>)
    ensures
        decoded is Ok == valid_utf8(bytes@),
        decoded matches Ok(text) ==> encode_utf8(text@) == bytes@,
{
    String::from_utf8(bytes)
}

/// Calls `std::str::from_utf8` and says whether it succeeded. Trusted: it
/// succeeds exactly on valid UTF-8.
#[verifier::external_body]
pub(crate) fn check_utf8(bytes: &[u8]) -> (valid: bool)
    ensures
        valid == valid_utf8(bytes@),
{
    std::str::from_utf8(bytes).is_ok()
}

/// A matching line, as a value: the target it was found in, its number there
/// and its bytes.
pub struct PrintableLine {
    pub target_name: Seq<char>,
    pub line_num: usize,
    pub text: Seq<u8>,
}

/// A matching line on its way to the printer.
#[derive(Debug, Clone, PartialEq, Eq)]
pub struct PrintableResult {
    target_name: String,
    line_num: usize,
    text: Vec<u8>,
}

impl View for PrintableResult {
    type V = PrintableLine;

    closed spec fn view(&self) -> PrintableLine {
        PrintableLine {
            target_name: self.target_name@,
            line_num: self.line_num,
            text: self.text@,
        }
    }
}

impl DeepView for PrintableResult {
    type V = PrintableLine;

    open spec fn deep_view(&self) -> PrintableLine {
        self@
    }
}

impl PrintableResult {
    /// The line `text`, found as line `line_num` of `target_name`.
    pub fn new(target_name: String, line_num: usize, text: Vec<u8>) -> (result: Self)
        ensures
            result@ == (PrintableLine { target_name: target_name@, line_num, text: text@ }),
    {
        Self { target_name, line_num, text }
    }

    /// The name of the target the line was found in.
    pub fn target_name(&self) -> (name: &String)
        ensures
            name@ == self@.target_name,
    {
        &self.target_name
    }

    /// The number of the line in its target.
    pub fn line_num(&self) -> (n: usize)
        ensures
            n == self@.line_num,
    {
        self.line_num
    }

    /// The bytes of the line.
    pub fn text(&self) -> (bytes: &Vec<u8>)
        ensures
            bytes@ == self@.text,
    {
        &self.text
    }

    /// The line as a string. Fails, naming the target, exactly when the bytes
    /// are no UTF-8.
    pub fn text_as_string(self) -> (decoded: Result<String, SearchError>)
        ensures
            decoded is Ok == valid_utf8(self@.text),
            decoded matches Ok(text) ==> encode_utf8(text@) == self@.text,
            decoded matches Err(error) ==> (error matches SearchError::Utf8PrintFail(name)
                && name@ == self@.target_name),
    {
        let target_name = self.target_name;
        match string_from_utf8(self.text) {
            Ok(text) => Ok(text),
            Err(_) => Err(SearchError::Utf8PrintFail(target_name)),
        }
    }
}

/// A message to the printer, as a value.
pub enum PrintEvent {
    /// A matching line.
    Printable(PrintableLine),
    /// No more lines will come for the named target.
    EndOfReading { target_name: Seq<char> },
    /// Text to show as it is.
    Display(Seq<char>),
}

/// A message to the printer.
#[derive(Debug, Clone, PartialEq, Eq)]
pub enum PrintMessage {
    /// A matching line.
    Printable(PrintableResult),
    /// Signals that there will be no more messages for the named target.
    EndOfReading { target_name: String },
    /// Simply a string for displaying.
    Display(String),
}

impl View for PrintMessage {
    type V = PrintEvent;

    open spec fn view(&self) -> PrintEvent {
        match self {
            PrintMessage::Printable(printable) => PrintEvent::Printable(printable@),
            PrintMessage::EndOfReading { target_name } => PrintEvent::EndOfReading {
                target_name: target_name@,
            },
            PrintMessage::Display(text) => PrintEvent::Display(text@),
        }
    }
}

impl DeepView for PrintMessage {
    type V = PrintEvent;

    open spec fn deep_view(&self) -> PrintEvent {
        self@
    }
}

/// The ability to take a message for the printer.
pub trait PrinterSender: Clone + Send {
    /// Hands `message` over.
    fn send(&self, message: PrintMessage);
}

/// A sender that drops every message.
#[derive(Debug, Clone, Copy)]
pub struct NullPrinter;

impl PrinterSender for NullPrinter {
    fn send(&self, _message: PrintMessage) {
    }
}

/// A sender without a printer behind it.
pub fn make_printer_sender() -> NullPrinter {
    NullPrinter
}

} // verus!
